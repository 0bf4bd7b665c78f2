use vstd::prelude::*;

verus! {

use crate::DecodeError;

/// The four wire types a tag may carry. Group start/end codes are refused.
#[derive(Clone, Copy, Debug, PartialEq, Eq, Structural)]
pub enum WireType {
    Varint,
    Fixed64,
    Len,
    Fixed32,
}

/// Value and end position of the varint starting at `pos` in `s[..end]`,
/// reading at most `budget` bytes. Little-endian 7-bit groups; a byte with
/// the high bit clear terminates. The value wraps into 64 bits.
pub open spec fn sp_varint(s: Seq<u8>, pos: int, end: int, budget: nat) -> Result<(u64, int), DecodeError>
    decreases budget,
{
    if pos >= end || pos < 0 || pos >= s.len() {
        Err(DecodeError::TruncatedInput)
    } else if s[pos] < 128 {
        Ok((s[pos] as u64, pos + 1))
    } else if budget <= 1 {
        Err(DecodeError::InvalidVarint)
    } else {
        match sp_varint(s, pos + 1, end, (budget - 1) as nat) {
            Ok((v, np)) => Ok(((s[pos] - 128) as u64 | (v << 7), np)),
            Err(e) => Err(e),
        }
    }
}

/// Reads one varint from `buf[pos..end]`, allowing at most `budget` bytes.
pub fn read_varint(buf: &Vec<u8>, pos: usize, end: usize, budget: u32) -> (r: Result<(u64, usize), DecodeError>)
    requires
        end <= buf.len(),
    ensures
        match r {
            Ok(p) => sp_varint(buf@, pos as int, end as int, budget as nat) == Ok::<(u64, int), DecodeError>((p.0, p.1 as int))
                && pos < p.1 <= end,
            Err(e) => sp_varint(buf@, pos as int, end as int, budget as nat) == Err::<(u64, int), DecodeError>(e),
        },
    decreases budget,
{
    if pos >= end {
        return Err(DecodeError::TruncatedInput);
    }
    let b = buf[pos];
    if b < 128 {
        Ok((b as u64, pos + 1))
    } else if budget <= 1 {
        Err(DecodeError::InvalidVarint)
    } else {
        match read_varint(buf, pos + 1, end, budget - 1) {
            Ok((v, np)) => Ok(((b - 128) as u64 | (v << 7), np)),
            Err(e) => Err(e),
        }
    }
}

/// Maps a 3-bit wire-type code to a WireType; codes 3, 4, 6 and 7 are refused.
pub open spec fn sp_wire_type(code: u64) -> Result<WireType, DecodeError> {
    if code == 0 {
        Ok(WireType::Varint)
    } else if code == 1 {
        Ok(WireType::Fixed64)
    } else if code == 2 {
        Ok(WireType::Len)
    } else if code == 5 {
        Ok(WireType::Fixed32)
    } else {
        Err(DecodeError::UnsupportedWireType)
    }
}

/// Field number and wire type of the tag at `pos`: one varint, split as
/// `number = v >> 3`, `wire type = v & 7`.
pub open spec fn sp_tag(s: Seq<u8>, pos: int, end: int) -> Result<((u64, WireType), int), DecodeError> {
    match sp_varint(s, pos, end, 10) {
        Ok((v, np)) => match sp_wire_type(v & 7) {
            Ok(wt) => Ok(((v >> 3, wt), np)),
            Err(e) => Err(e),
        },
        Err(e) => Err(e),
    }
}

/// Reads one tag from `buf[pos..end]`.
pub fn read_tag(buf: &Vec<u8>, pos: usize, end: usize) -> (r: Result<((u64, WireType), usize), DecodeError>)
    requires
        end <= buf.len(),
    ensures
        match r {
            Ok(p) => sp_tag(buf@, pos as int, end as int) == Ok::<((u64, WireType), int), DecodeError>((p.0, p.1 as int))
                && pos < p.1 <= end,
            Err(e) => sp_tag(buf@, pos as int, end as int) == Err::<((u64, WireType), int), DecodeError>(e),
        },
{
    match read_varint(buf, pos, end, 10) {
        Ok((v, np)) => {
            let code = v & 7;
            if code == 0 {
                Ok(((v >> 3, WireType::Varint), np))
            } else if code == 1 {
                Ok(((v >> 3, WireType::Fixed64), np))
            } else if code == 2 {
                Ok(((v >> 3, WireType::Len), np))
            } else if code == 5 {
                Ok(((v >> 3, WireType::Fixed32), np))
            } else {
                Err(DecodeError::UnsupportedWireType)
            }
        },
        Err(e) => Err(e),
    }
}

/// Value and end position of the little-endian 4-byte integer at `pos`.
pub open spec fn sp_fixed32(s: Seq<u8>, pos: int, end: int) -> Result<(u32, int), DecodeError> {
    if 0 <= pos && pos + 4 <= end && end <= s.len() {
        Ok((
            (s[pos] as u32) | ((s[pos + 1] as u32) << 8) | ((s[pos + 2] as u32) << 16)
                | ((s[pos + 3] as u32) << 24),
            pos + 4,
        ))
    } else {
        Err(DecodeError::TruncatedInput)
    }
}

pub fn read_fixed32(buf: &Vec<u8>, pos: usize, end: usize) -> (r: Result<(u32, usize), DecodeError>)
    requires
        end <= buf.len(),
    ensures
        match r {
            Ok(p) => sp_fixed32(buf@, pos as int, end as int) == Ok::<(u32, int), DecodeError>((p.0, p.1 as int))
                && pos < p.1 <= end,
            Err(e) => sp_fixed32(buf@, pos as int, end as int) == Err::<(u32, int), DecodeError>(e),
        },
{
    if pos < end && end - pos >= 4 {
        let v = (buf[pos] as u32) | ((buf[pos + 1] as u32) << 8) | ((buf[pos + 2] as u32) << 16)
            | ((buf[pos + 3] as u32) << 24);
        Ok((v, pos + 4))
    } else {
        Err(DecodeError::TruncatedInput)
    }
}

/// Value and end position of the little-endian 8-byte integer at `pos`.
pub open spec fn sp_fixed64(s: Seq<u8>, pos: int, end: int) -> Result<(u64, int), DecodeError> {
    if 0 <= pos && pos + 8 <= end && end <= s.len() {
        Ok((
            (s[pos] as u64) | ((s[pos + 1] as u64) << 8) | ((s[pos + 2] as u64) << 16)
                | ((s[pos + 3] as u64) << 24) | ((s[pos + 4] as u64) << 32)
                | ((s[pos + 5] as u64) << 40) | ((s[pos + 6] as u64) << 48)
                | ((s[pos + 7] as u64) << 56),
            pos + 8,
        ))
    } else {
        Err(DecodeError::TruncatedInput)
    }
}

pub fn read_fixed64(buf: &Vec<u8>, pos: usize, end: usize) -> (r: Result<(u64, usize), DecodeError>)
    requires
        end <= buf.len(),
    ensures
        match r {
            Ok(p) => sp_fixed64(buf@, pos as int, end as int) == Ok::<(u64, int), DecodeError>((p.0, p.1 as int))
                && pos < p.1 <= end,
            Err(e) => sp_fixed64(buf@, pos as int, end as int) == Err::<(u64, int), DecodeError>(e),
        },
{
    if pos < end && end - pos >= 8 {
        let v = (buf[pos] as u64) | ((buf[pos + 1] as u64) << 8) | ((buf[pos + 2] as u64) << 16)
            | ((buf[pos + 3] as u64) << 24) | ((buf[pos + 4] as u64) << 32)
            | ((buf[pos + 5] as u64) << 40) | ((buf[pos + 6] as u64) << 48)
            | ((buf[pos + 7] as u64) << 56);
        Ok((v, pos + 8))
    } else {
        Err(DecodeError::TruncatedInput)
    }
}

/// Bounds of the length-delimited payload at `pos`: a varint length, then
/// that many bytes. Result is ((payload start, payload end), end position).
pub open spec fn sp_len_payload(s: Seq<u8>, pos: int, end: int) -> Result<((int, int), int), DecodeError> {
    match sp_varint(s, pos, end, 10) {
        Ok((len, a)) => if a + len <= end {
            Ok(((a, a + len), a + len))
        } else {
            Err(DecodeError::TruncatedInput)
        },
        Err(e) => Err(e),
    }
}

pub fn read_len_payload(buf: &Vec<u8>, pos: usize, end: usize) -> (r: Result<((usize, usize), usize), DecodeError>)
    requires
        end <= buf.len(),
    ensures
        match r {
            Ok(p) => sp_len_payload(buf@, pos as int, end as int)
                == Ok::<((int, int), int), DecodeError>(((p.0.0 as int, p.0.1 as int), p.1 as int))
                && pos < p.0.0 <= p.0.1 <= end && p.1 == p.0.1,
            Err(e) => sp_len_payload(buf@, pos as int, end as int) == Err::<((int, int), int), DecodeError>(e),
        },
{
    match read_varint(buf, pos, end, 10) {
        Ok((len, a)) => {
            if len <= (end - a) as u64 {
                let b = a + (len as usize);
                Ok(((a, b), b))
            } else {
                Err(DecodeError::TruncatedInput)
            }
        },
        Err(e) => Err(e),
    }
}

/// End position after skipping the payload of a field with wire type `wt`.
pub open spec fn sp_skip(s: Seq<u8>, pos: int, end: int, wt: WireType) -> Result<int, DecodeError> {
    match wt {
        WireType::Varint => match sp_varint(s, pos, end, 10) {
            Ok((v, np)) => Ok(np),
            Err(e) => Err(e),
        },
        WireType::Fixed64 => match sp_fixed64(s, pos, end) {
            Ok((v, np)) => Ok(np),
            Err(e) => Err(e),
        },
        WireType::Len => match sp_len_payload(s, pos, end) {
            Ok((ab, np)) => Ok(np),
            Err(e) => Err(e),
        },
        WireType::Fixed32 => match sp_fixed32(s, pos, end) {
            Ok((v, np)) => Ok(np),
            Err(e) => Err(e),
        },
    }
}

pub fn skip_payload(buf: &Vec<u8>, pos: usize, end: usize, wt: WireType) -> (r: Result<usize, DecodeError>)
    requires
        end <= buf.len(),
    ensures
        match r {
            Ok(np) => sp_skip(buf@, pos as int, end as int, wt) == Ok::<int, DecodeError>(np as int)
                && pos < np <= end,
            Err(e) => sp_skip(buf@, pos as int, end as int, wt) == Err::<int, DecodeError>(e),
        },
{
    match wt {
        WireType::Varint => match read_varint(buf, pos, end, 10) {
            Ok((v, np)) => Ok(np),
            Err(e) => Err(e),
        },
        WireType::Fixed64 => match read_fixed64(buf, pos, end) {
            Ok((v, np)) => Ok(np),
            Err(e) => Err(e),
        },
        WireType::Len => match read_len_payload(buf, pos, end) {
            Ok((ab, np)) => Ok(np),
            Err(e) => Err(e),
        },
        WireType::Fixed32 => match read_fixed32(buf, pos, end) {
            Ok((v, np)) => Ok(np),
            Err(e) => Err(e),
        },
    }
}

/// Copies `buf[a..b]` into a fresh vector.
pub fn copy_range(buf: &Vec<u8>, a: usize, b: usize) -> (r: Vec<u8>)
    requires
        a <= b <= buf.len(),
    ensures
        r@ == buf@.subrange(a as int, b as int),
{
    let mut out: Vec<u8> = Vec::new();
    let mut i = a;
    while i < b
        invariant
            a <= i <= b <= buf.len(),
            out@ == buf@.subrange(a as int, i as int),
        decreases b - i,
    {
        out.push(buf[i]);
        i = i + 1;
        proof {
            assert(buf@.subrange(a as int, i as int)
                =~= buf@.subrange(a as int, i - 1).push(buf@[i - 1]));
        }
    }
    out
}

} // verus!
