use vstd::prelude::*;

verus! {

broadcast use vstd::std_specs::vec::axiom_vec_index_decreases;

/// Declared type of a field, as the descriptor states it.
#[derive(Clone, Copy, Debug, PartialEq, Eq, Structural)]
pub enum FieldType {
    Double,
    Float,
    Int64,
    Uint64,
    Int32,
    Fixed64,
    Fixed32,
    Bool,
    Str,
    Group,
    Message,
    Bytes,
    Uint32,
    Enum,
    Sfixed32,
    Sfixed64,
    Sint32,
    Sint64,
}

/// A decoded field value, in wire-encounter order. Text is carried as its
/// UTF-8 bytes; floating-point values are carried as their raw IEEE bits.
/// Map fields are carried as lists of their entry messages and merged at
/// projection time. `Unknown` retains a field absent from the descriptor
/// when the configuration asks for that.
pub enum DecodedValue {
    Int(i64),
    Uint(u64),
    Bool(bool),
    F32Bits(u32),
    F64Bits(u64),
    Str(Vec<u8>),
    Bytes(Vec<u8>),
    List(Vec<DecodedValue>),
    Msg(Vec<(u64, DecodedValue)>),
    Unknown(u8, Vec<u8>),
}

/// Mathematical model of a DecodedValue.
pub ghost enum SpecValue {
    Int(i64),
    Uint(u64),
    Bool(bool),
    F32Bits(u32),
    F64Bits(u64),
    Str(Seq<u8>),
    Bytes(Seq<u8>),
    List(Seq<SpecValue>),
    Msg(Seq<(u64, SpecValue)>),
    Unknown(u8, Seq<u8>),
}

impl DecodedValue {
    pub open spec fn deep(self) -> SpecValue
        decreases self,
    {
        match self {
            DecodedValue::Int(x) => SpecValue::Int(x),
            DecodedValue::Uint(x) => SpecValue::Uint(x),
            DecodedValue::Bool(x) => SpecValue::Bool(x),
            DecodedValue::F32Bits(x) => SpecValue::F32Bits(x),
            DecodedValue::F64Bits(x) => SpecValue::F64Bits(x),
            DecodedValue::Str(v) => SpecValue::Str(v@),
            DecodedValue::Bytes(v) => SpecValue::Bytes(v@),
            DecodedValue::List(v) => SpecValue::List(
                Seq::new(
                    v.len() as nat,
                    |i: int| if 0 <= i < v.len() { v[i].deep() } else { SpecValue::Int(0) },
                ),
            ),
            DecodedValue::Msg(v) => SpecValue::Msg(
                Seq::new(
                    v.len() as nat,
                    |i: int|
                        if 0 <= i < v.len() {
                            (v[i].0, v[i].1.deep())
                        } else {
                            (0u64, SpecValue::Int(0))
                        },
                ),
            ),
            DecodedValue::Unknown(wt, v) => SpecValue::Unknown(wt, v@),
        }
    }
}

impl View for DecodedValue {
    type V = SpecValue;

    open spec fn view(&self) -> SpecValue {
        self.deep()
    }
}

/// Models a sequence of decoded field entries, field number by field number.
pub open spec fn deep_entries(v: Seq<(u64, DecodedValue)>) -> Seq<(u64, SpecValue)> {
    Seq::new(
        v.len(),
        |i: int| if 0 <= i < v.len() { (v[i].0, v[i].1.deep()) } else { (0u64, SpecValue::Int(0)) },
    )
}

/// Models a sequence of decoded list elements.
pub open spec fn deep_list(v: Seq<DecodedValue>) -> Seq<SpecValue> {
    Seq::new(
        v.len(),
        |i: int| if 0 <= i < v.len() { v[i].deep() } else { SpecValue::Int(0) },
    )
}

pub proof fn lemma_deep_list_eq(v: Vec<DecodedValue>)
    ensures
        DecodedValue::List(v).deep() == SpecValue::List(deep_list(v@)),
{
    let s = DecodedValue::List(v).deep()->List_0;
    assert(s =~= deep_list(v@));
}

pub proof fn lemma_deep_msg_eq(v: Vec<(u64, DecodedValue)>)
    ensures
        DecodedValue::Msg(v).deep() == SpecValue::Msg(deep_entries(v@)),
{
    let s = DecodedValue::Msg(v).deep()->Msg_0;
    assert(s =~= deep_entries(v@));
}

/// The low 32 bits of a varint value, as an unsigned number.
pub open spec fn sp_low32(v: u64) -> u64 {
    v & 0xffff_ffff
}

/// The 64-bit varint value reinterpreted as a two's-complement signed number.
pub open spec fn sp_as_i64(v: u64) -> i64 {
    if v >= 0x8000_0000_0000_0000 {
        (v as int - 0x1_0000_0000_0000_0000) as i64
    } else {
        v as i64
    }
}

/// The low 32 bits of a varint value reinterpreted as a signed 32-bit number.
pub open spec fn sp_as_i32(v: u64) -> i64 {
    if sp_low32(v) >= 0x8000_0000 {
        (sp_low32(v) as int - 0x1_0000_0000) as i64
    } else {
        sp_low32(v) as i64
    }
}

/// Zig-zag decoding of a 64-bit value: 0, 1, 2, 3 ... mean 0, -1, 1, -2 ...
pub open spec fn sp_unzigzag64(v: u64) -> i64 {
    if v & 1 == 0 {
        (v >> 1) as i64
    } else {
        (-1 - ((v >> 1) as int)) as i64
    }
}

/// Zig-zag decoding of the low 32 bits of a value.
pub open spec fn sp_unzigzag32(v: u64) -> i64 {
    if sp_low32(v) & 1 == 0 {
        (sp_low32(v) >> 1) as i64
    } else {
        (-1 - ((sp_low32(v) >> 1) as int)) as i64
    }
}

/// A 32-bit pattern reinterpreted as a signed 32-bit number.
pub open spec fn sp_s32_of_bits(x: u32) -> i64 {
    if x >= 0x8000_0000 {
        (x as int - 0x1_0000_0000) as i64
    } else {
        x as i64
    }
}

/// A 64-bit pattern reinterpreted as a signed 64-bit number.
pub open spec fn sp_s64_of_bits(x: u64) -> i64 {
    sp_as_i64(x)
}

proof fn lemma_mask32(v: u64)
    ensures
        v & 0xffff_ffff < 0x1_0000_0000,
        v & 0xffff_ffff <= v,
{
    assert(v & 0xffff_ffff < 0x1_0000_0000 && v & 0xffff_ffff <= v) by (bit_vector);
}

proof fn lemma_shr1_64(v: u64)
    ensures
        v >> 1 < 0x8000_0000_0000_0000,
{
    assert(v >> 1 < 0x8000_0000_0000_0000) by (bit_vector);
}

proof fn lemma_shr1_32(v: u64)
    requires
        v < 0x1_0000_0000,
    ensures
        v >> 1 < 0x8000_0000,
{
    assert(v < 0x1_0000_0000 ==> v >> 1 < 0x8000_0000) by (bit_vector);
}

pub fn low32(v: u64) -> (r: u64)
    ensures
        r == sp_low32(v),
        r < 0x1_0000_0000,
{
    proof { lemma_mask32(v); }
    v & 0xffff_ffff
}

pub fn as_i64(v: u64) -> (r: i64)
    ensures
        r == sp_as_i64(v),
{
    if v >= 0x8000_0000_0000_0000 {
        let m = u64::MAX - v;
        -(m as i64) - 1
    } else {
        v as i64
    }
}

pub fn as_i32(v: u64) -> (r: i64)
    ensures
        r == sp_as_i32(v),
{
    let lo = low32(v);
    if lo >= 0x8000_0000 {
        -((0x1_0000_0000u64 - lo) as i64)
    } else {
        lo as i64
    }
}

pub fn unzigzag64(v: u64) -> (r: i64)
    ensures
        r == sp_unzigzag64(v),
{
    proof { lemma_shr1_64(v); }
    let h = v >> 1;
    if v & 1 == 0 {
        h as i64
    } else {
        -(h as i64) - 1
    }
}

pub fn unzigzag32(v: u64) -> (r: i64)
    ensures
        r == sp_unzigzag32(v),
{
    let lo = low32(v);
    proof { lemma_shr1_32(lo); }
    let h = lo >> 1;
    if lo & 1 == 0 {
        h as i64
    } else {
        -(h as i64) - 1
    }
}

pub fn s32_of_bits(x: u32) -> (r: i64)
    ensures
        r == sp_s32_of_bits(x),
{
    if x >= 0x8000_0000 {
        -((0x1_0000_0000u64 - x as u64) as i64)
    } else {
        x as i64
    }
}

pub fn s64_of_bits(x: u64) -> (r: i64)
    ensures
        r == sp_s64_of_bits(x),
{
    as_i64(x)
}

} // verus!
