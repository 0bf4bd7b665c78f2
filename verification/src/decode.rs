use vstd::prelude::*;

verus! {

use crate::DecodeError;
use crate::descriptor::{
    DescriptorRegistry, MessageDescriptor, SpecField, SpecMessageDesc, SpecRegistry, find_field,
    sp_find_field, sp_find_msg,
};
use crate::value::{
    DecodedValue, FieldType, SpecValue, deep_entries, deep_list, lemma_deep_list_eq,
    lemma_deep_msg_eq, sp_as_i32, sp_as_i64, sp_low32, sp_s32_of_bits, sp_s64_of_bits,
    sp_unzigzag32, sp_unzigzag64, as_i32, as_i64, low32, s32_of_bits, s64_of_bits, unzigzag32,
    unzigzag64,
};
use crate::wire::{
    WireType, copy_range, read_fixed32, read_fixed64, read_len_payload, read_tag, read_varint,
    skip_payload, sp_fixed32, sp_fixed64, sp_len_payload, sp_skip, sp_tag, sp_varint,
};

/// Decoding options recognized by the decoder and the projector.
#[derive(Clone, Copy, Debug, PartialEq, Eq, Structural)]
pub struct DecodeConfig {
    pub use_enum_numbers: bool,
    pub preserve_unknown_fields: bool,
    pub int64_as_string: bool,
}

/// The 3-bit wire code of a wire type.
pub open spec fn sp_wt_code(wt: WireType) -> u8 {
    match wt {
        WireType::Varint => 0,
        WireType::Fixed64 => 1,
        WireType::Len => 2,
        WireType::Fixed32 => 5,
    }
}

pub fn wt_code(wt: WireType) -> (r: u8)
    ensures
        r == sp_wt_code(wt),
{
    match wt {
        WireType::Varint => 0,
        WireType::Fixed64 => 1,
        WireType::Len => 2,
        WireType::Fixed32 => 5,
    }
}

/// The wire type a value of declared type `t` is encoded with when it is
/// not packed.
pub open spec fn sp_expected_wire(t: FieldType) -> WireType {
    match t {
        FieldType::Double => WireType::Fixed64,
        FieldType::Float => WireType::Fixed32,
        FieldType::Int64 => WireType::Varint,
        FieldType::Uint64 => WireType::Varint,
        FieldType::Int32 => WireType::Varint,
        FieldType::Fixed64 => WireType::Fixed64,
        FieldType::Fixed32 => WireType::Fixed32,
        FieldType::Bool => WireType::Varint,
        FieldType::Str => WireType::Len,
        FieldType::Group => WireType::Len,
        FieldType::Message => WireType::Len,
        FieldType::Bytes => WireType::Len,
        FieldType::Uint32 => WireType::Varint,
        FieldType::Enum => WireType::Varint,
        FieldType::Sfixed32 => WireType::Fixed32,
        FieldType::Sfixed64 => WireType::Fixed64,
        FieldType::Sint32 => WireType::Varint,
        FieldType::Sint64 => WireType::Varint,
    }
}

pub fn expected_wire(t: FieldType) -> (r: WireType)
    ensures
        r == sp_expected_wire(t),
{
    match t {
        FieldType::Double => WireType::Fixed64,
        FieldType::Float => WireType::Fixed32,
        FieldType::Int64 => WireType::Varint,
        FieldType::Uint64 => WireType::Varint,
        FieldType::Int32 => WireType::Varint,
        FieldType::Fixed64 => WireType::Fixed64,
        FieldType::Fixed32 => WireType::Fixed32,
        FieldType::Bool => WireType::Varint,
        FieldType::Str => WireType::Len,
        FieldType::Group => WireType::Len,
        FieldType::Message => WireType::Len,
        FieldType::Bytes => WireType::Len,
        FieldType::Uint32 => WireType::Varint,
        FieldType::Enum => WireType::Varint,
        FieldType::Sfixed32 => WireType::Fixed32,
        FieldType::Sfixed64 => WireType::Fixed64,
        FieldType::Sint32 => WireType::Varint,
        FieldType::Sint64 => WireType::Varint,
    }
}

/// The scalar value a varint `v` stands for under declared type `t`.
pub open spec fn sp_scalar_of_varint(t: FieldType, v: u64) -> SpecValue {
    match t {
        FieldType::Int32 => SpecValue::Int(sp_as_i32(v)),
        FieldType::Int64 => SpecValue::Int(sp_as_i64(v)),
        FieldType::Uint32 => SpecValue::Uint(sp_low32(v)),
        FieldType::Uint64 => SpecValue::Uint(v),
        FieldType::Sint32 => SpecValue::Int(sp_unzigzag32(v)),
        FieldType::Sint64 => SpecValue::Int(sp_unzigzag64(v)),
        FieldType::Bool => SpecValue::Bool(v != 0),
        FieldType::Enum => SpecValue::Int(sp_as_i32(v)),
        _ => SpecValue::Uint(v),
    }
}

/// The scalar value a 4-byte pattern stands for under declared type `t`.
pub open spec fn sp_scalar_of_fixed32(t: FieldType, x: u32) -> SpecValue {
    match t {
        FieldType::Sfixed32 => SpecValue::Int(sp_s32_of_bits(x)),
        FieldType::Float => SpecValue::F32Bits(x),
        _ => SpecValue::Uint(x as u64),
    }
}

/// The scalar value an 8-byte pattern stands for under declared type `t`.
pub open spec fn sp_scalar_of_fixed64(t: FieldType, x: u64) -> SpecValue {
    match t {
        FieldType::Sfixed64 => SpecValue::Int(sp_s64_of_bits(x)),
        FieldType::Double => SpecValue::F64Bits(x),
        _ => SpecValue::Uint(x),
    }
}

/// Reads one scalar of declared type `t` at `pos`, using the wire shape
/// that `t` calls for.
pub open spec fn sp_read_scalar(s: Seq<u8>, pos: int, end: int, t: FieldType) -> Result<(SpecValue, int), DecodeError> {
    match sp_expected_wire(t) {
        WireType::Varint => match sp_varint(s, pos, end, 10) {
            Ok((v, np)) => Ok((sp_scalar_of_varint(t, v), np)),
            Err(e) => Err(e),
        },
        WireType::Fixed32 => match sp_fixed32(s, pos, end) {
            Ok((x, np)) => Ok((sp_scalar_of_fixed32(t, x), np)),
            Err(e) => Err(e),
        },
        WireType::Fixed64 => match sp_fixed64(s, pos, end) {
            Ok((x, np)) => Ok((sp_scalar_of_fixed64(t, x), np)),
            Err(e) => Err(e),
        },
        WireType::Len => Err(DecodeError::UnsupportedWireType),
    }
}

pub fn read_scalar(buf: &Vec<u8>, pos: usize, end: usize, t: FieldType) -> (r: Result<(DecodedValue, usize), DecodeError>)
    requires
        end <= buf.len(),
    ensures
        match r {
            Ok(p) => sp_read_scalar(buf@, pos as int, end as int, t)
                == Ok::<(SpecValue, int), DecodeError>((p.0.deep(), p.1 as int)) && pos < p.1 <= end,
            Err(e) => sp_read_scalar(buf@, pos as int, end as int, t) == Err::<(SpecValue, int), DecodeError>(e),
        },
{
    match expected_wire(t) {
        WireType::Varint => match read_varint(buf, pos, end, 10) {
            Ok((v, np)) => {
                let dv = match t {
                    FieldType::Int32 => DecodedValue::Int(as_i32(v)),
                    FieldType::Int64 => DecodedValue::Int(as_i64(v)),
                    FieldType::Uint32 => DecodedValue::Uint(low32(v)),
                    FieldType::Uint64 => DecodedValue::Uint(v),
                    FieldType::Sint32 => DecodedValue::Int(unzigzag32(v)),
                    FieldType::Sint64 => DecodedValue::Int(unzigzag64(v)),
                    FieldType::Bool => DecodedValue::Bool(v != 0),
                    FieldType::Enum => DecodedValue::Int(as_i32(v)),
                    _ => DecodedValue::Uint(v),
                };
                Ok((dv, np))
            },
            Err(e) => Err(e),
        },
        WireType::Fixed32 => match read_fixed32(buf, pos, end) {
            Ok((x, np)) => {
                let dv = match t {
                    FieldType::Sfixed32 => DecodedValue::Int(s32_of_bits(x)),
                    FieldType::Float => DecodedValue::F32Bits(x),
                    _ => DecodedValue::Uint(x as u64),
                };
                Ok((dv, np))
            },
            Err(e) => Err(e),
        },
        WireType::Fixed64 => match read_fixed64(buf, pos, end) {
            Ok((x, np)) => {
                let dv = match t {
                    FieldType::Sfixed64 => DecodedValue::Int(s64_of_bits(x)),
                    FieldType::Double => DecodedValue::F64Bits(x),
                    _ => DecodedValue::Uint(x),
                };
                Ok((dv, np))
            },
            Err(e) => Err(e),
        },
        WireType::Len => Err(DecodeError::UnsupportedWireType),
    }
}

/// Index of the first entry with field number `num`, or -1.
pub open spec fn sp_find_idx(entries: Seq<(u64, SpecValue)>, num: u64, i: int) -> int
    decreases entries.len() - i,
{
    if 0 <= i < entries.len() {
        if entries[i].0 == num {
            i
        } else {
            sp_find_idx(entries, num, i + 1)
        }
    } else {
        -1
    }
}

/// Overwrite-on-repeat for a singular field: replace the entry for `num`,
/// or append one.
pub open spec fn sp_set_field(entries: Seq<(u64, SpecValue)>, num: u64, v: SpecValue) -> Seq<(u64, SpecValue)> {
    let i = sp_find_idx(entries, num, 0);
    if i >= 0 {
        entries.update(i, (num, v))
    } else {
        entries.push((num, v))
    }
}

/// Append one occurrence of a repeated field to its accumulating list.
pub open spec fn sp_append_repeated(entries: Seq<(u64, SpecValue)>, num: u64, v: SpecValue) -> Seq<(u64, SpecValue)> {
    let i = sp_find_idx(entries, num, 0);
    if i >= 0 {
        match entries[i].1 {
            SpecValue::List(items) => entries.update(i, (num, SpecValue::List(items.push(v)))),
            _ => entries.update(i, (num, SpecValue::List(seq![v]))),
        }
    } else {
        entries.push((num, SpecValue::List(seq![v])))
    }
}

/// Whether field number `num` of `desc` belongs to oneof group `g`.
pub open spec fn sp_in_group(desc: SpecMessageDesc, num: u64, g: i64) -> bool {
    match sp_find_field(desc, num, 0) {
        Some(fd) => fd.oneof == Some(g),
        None => false,
    }
}

/// Entries from index `i` on, with every member of oneof group `g` removed.
pub open spec fn sp_clear_group(entries: Seq<(u64, SpecValue)>, desc: SpecMessageDesc, g: i64, i: int) -> Seq<(u64, SpecValue)>
    decreases entries.len() - i,
{
    if 0 <= i < entries.len() {
        if sp_in_group(desc, entries[i].0, g) {
            sp_clear_group(entries, desc, g, i + 1)
        } else {
            seq![entries[i]] + sp_clear_group(entries, desc, g, i + 1)
        }
    } else {
        Seq::empty()
    }
}

/// How one decoded occurrence of field `fd` lands in the accumulated
/// entries: repeated fields append, oneof members displace their group,
/// and singular fields overwrite.
pub open spec fn sp_store(desc: SpecMessageDesc, entries: Seq<(u64, SpecValue)>, fd: SpecField, v: SpecValue) -> Seq<(u64, SpecValue)> {
    if fd.repeated {
        sp_append_repeated(entries, fd.number, v)
    } else {
        match fd.oneof {
            Some(g) => sp_clear_group(entries, desc, g, 0).push((fd.number, v)),
            None => sp_set_field(entries, fd.number, v),
        }
    }
}

/// Unpacks a packed span `s[pos..end]` of scalars of type `t`.
pub open spec fn sp_unpack(s: Seq<u8>, pos: int, end: int, t: FieldType, acc: Seq<SpecValue>) -> Result<Seq<SpecValue>, DecodeError>
    decreases end - pos,
{
    if pos >= end {
        Ok(acc)
    } else {
        match sp_read_scalar(s, pos, end, t) {
            Ok((v, np)) => if pos < np <= end {
                sp_unpack(s, np, end, t, acc.push(v))
            } else {
                Err(DecodeError::TruncatedInput)
            },
            Err(e) => Err(e),
        }
    }
}

/// Appends the elements of `items` one by one, first element first.
pub open spec fn sp_append_all(entries: Seq<(u64, SpecValue)>, num: u64, items: Seq<SpecValue>) -> Seq<(u64, SpecValue)>
    decreases items.len(),
{
    if items.len() == 0 {
        entries
    } else {
        sp_append_all(sp_append_repeated(entries, num, items.first()), num, items.drop_first())
    }
}

/// The decoded entries of the message occupying `s[pos..end]`, decoded
/// against `desc`, appended to `acc`: reads tags until the span is
/// exhausted, dispatches each field per its declared type, skips fields
/// absent from the descriptor (or retains them raw when the configuration
/// says to), recurses into nested messages at most `depth` levels deep.
pub open spec fn sp_decode_fields(
    reg: SpecRegistry,
    s: Seq<u8>,
    pos: int,
    end: int,
    desc: SpecMessageDesc,
    depth: nat,
    cfg: DecodeConfig,
    acc: Seq<(u64, SpecValue)>,
) -> Result<Seq<(u64, SpecValue)>, DecodeError>
    decreases end - pos,
{
    if pos >= end {
        Ok(acc)
    } else {
        match sp_tag(s, pos, end) {
            Err(e) => Err(e),
            Ok(((num, wt), p1)) => if !(pos < p1 <= end) {
                Err(DecodeError::TruncatedInput)
            } else {
                match sp_find_field(desc, num, 0) {
                    None => match sp_skip(s, p1, end, wt) {
                        Err(e) => Err(e),
                        Ok(np) => if !(p1 < np <= end) {
                            Err(DecodeError::TruncatedInput)
                        } else {
                            let acc2 = if cfg.preserve_unknown_fields {
                                acc.push((num, SpecValue::Unknown(sp_wt_code(wt), s.subrange(p1, np))))
                            } else {
                                acc
                            };
                            sp_decode_fields(reg, s, np, end, desc, depth, cfg, acc2)
                        },
                    },
                    Some(fd) => if wt is Len {
                        match sp_len_payload(s, p1, end) {
                            Err(e) => Err(e),
                            Ok(((a, b), np)) => if !(p1 < a <= b <= end && np == b) {
                                Err(DecodeError::TruncatedInput)
                            } else if fd.ftype is Message {
                                if depth == 0 {
                                    Err(DecodeError::RecursionLimitExceeded)
                                } else {
                                    match sp_find_msg(reg, fd.ref_name, 0) {
                                        None => Err(DecodeError::UnknownType),
                                        Some(nd) => match sp_decode_fields(
                                            reg, s, a, b, nd, (depth - 1) as nat, cfg, Seq::empty(),
                                        ) {
                                            Err(e) => Err(e),
                                            Ok(sub) => sp_decode_fields(
                                                reg, s, np, end, desc, depth, cfg,
                                                sp_store(desc, acc, fd, SpecValue::Msg(sub)),
                                            ),
                                        },
                                    }
                                }
                            } else if fd.ftype is Str {
                                sp_decode_fields(
                                    reg, s, np, end, desc, depth, cfg,
                                    sp_store(desc, acc, fd, SpecValue::Str(s.subrange(a, b))),
                                )
                            } else if fd.ftype is Bytes {
                                sp_decode_fields(
                                    reg, s, np, end, desc, depth, cfg,
                                    sp_store(desc, acc, fd, SpecValue::Bytes(s.subrange(a, b))),
                                )
                            } else if fd.ftype is Group {
                                sp_decode_fields(reg, s, np, end, desc, depth, cfg, acc)
                            } else if fd.repeated {
                                match sp_unpack(s, a, b, fd.ftype, Seq::empty()) {
                                    Err(e) => Err(e),
                                    Ok(items) => sp_decode_fields(
                                        reg, s, np, end, desc, depth, cfg,
                                        sp_append_all(acc, fd.number, items),
                                    ),
                                }
                            } else {
                                sp_decode_fields(reg, s, np, end, desc, depth, cfg, acc)
                            },
                        }
                    } else {
                        if wt == sp_expected_wire(fd.ftype) {
                            match sp_read_scalar(s, p1, end, fd.ftype) {
                                Err(e) => Err(e),
                                Ok((v, np)) => if !(p1 < np <= end) {
                                    Err(DecodeError::TruncatedInput)
                                } else {
                                    sp_decode_fields(
                                        reg, s, np, end, desc, depth, cfg,
                                        sp_store(desc, acc, fd, v),
                                    )
                                },
                            }
                        } else {
                            match sp_skip(s, p1, end, wt) {
                                Err(e) => Err(e),
                                Ok(np) => if !(p1 < np <= end) {
                                    Err(DecodeError::TruncatedInput)
                                } else {
                                    sp_decode_fields(reg, s, np, end, desc, depth, cfg, acc)
                                },
                            }
                        }
                    },
                }
            },
        }
    }
}

/// Index of the first accumulated entry with field number `num`, if any.
pub(crate) fn find_entry(acc: &Vec<(u64, DecodedValue)>, num: u64) -> (r: Option<usize>)
    ensures
        match r {
            Some(i) => 0 <= i < acc.len() && sp_find_idx(deep_entries(acc@), num, 0) == i as int,
            None => sp_find_idx(deep_entries(acc@), num, 0) == -1,
        },
{
    let n = acc.len();
    let mut i: usize = 0;
    while i < n
        invariant
            i <= n,
            n == acc.len(),
            sp_find_idx(deep_entries(acc@), num, 0) == sp_find_idx(deep_entries(acc@), num, i as int),
        decreases n - i,
    {
        proof {
            assert(deep_entries(acc@)[i as int].0 == acc@[i as int].0);
        }
        if acc[i].0 == num {
            return Some(i);
        }
        i = i + 1;
    }
    None
}

/// Stores a singular field occurrence: overwrite the entry, or append one.
fn set_entry(acc: &mut Vec<(u64, DecodedValue)>, num: u64, v: DecodedValue)
    ensures
        deep_entries(final(acc)@) == sp_set_field(deep_entries(old(acc)@), num, v.deep()),
{
    let ghost de0 = deep_entries(acc@);
    match find_entry(acc, num) {
        Some(i) => {
            let ghost before = acc@;
            let _old_entry = acc.remove(i);
            acc.insert(i, (num, v));
            proof {
                assert(acc@ =~= before.update(i as int, (num, v)));
                assert(deep_entries(acc@) =~= de0.update(i as int, (num, v.deep())));
            }
        },
        None => {
            acc.push((num, v));
            proof {
                assert(deep_entries(acc@) =~= de0.push((num, v.deep())));
            }
        },
    }
}

/// Appends one occurrence of a repeated field to its accumulating list.
fn append_entry(acc: &mut Vec<(u64, DecodedValue)>, num: u64, v: DecodedValue)
    ensures
        deep_entries(final(acc)@) == sp_append_repeated(deep_entries(old(acc)@), num, v.deep()),
{
    let ghost de0 = deep_entries(acc@);
    match find_entry(acc, num) {
        Some(i) => {
            let ghost before = acc@;
            let entry = acc.remove(i);
            match entry.1 {
                DecodedValue::List(mut items) => {
                    proof {
                        lemma_deep_list_eq(items);
                        assert(de0[i as int].1 == SpecValue::List(deep_list(items@)));
                    }
                    let ghost items0 = items@;
                    items.push(v);
                    proof {
                        assert(deep_list(items@) =~= deep_list(items0).push(v.deep()));
                        lemma_deep_list_eq(items);
                    }
                    acc.insert(i, (num, DecodedValue::List(items)));
                    proof {
                        assert(acc@ =~= before.update(i as int, (num, DecodedValue::List(items))));
                        assert(deep_entries(acc@) =~= sp_append_repeated(de0, num, v.deep()));
                    }
                },
                _other => {
                    let mut items: Vec<DecodedValue> = Vec::new();
                    items.push(v);
                    proof {
                        lemma_deep_list_eq(items);
                        assert(deep_list(items@) =~= seq![v.deep()]);
                    }
                    acc.insert(i, (num, DecodedValue::List(items)));
                    proof {
                        assert(acc@ =~= before.update(i as int, (num, DecodedValue::List(items))));
                        assert(deep_entries(acc@) =~= sp_append_repeated(de0, num, v.deep()));
                    }
                },
            }
        },
        None => {
            let mut items: Vec<DecodedValue> = Vec::new();
            items.push(v);
            proof {
                lemma_deep_list_eq(items);
                assert(deep_list(items@) =~= seq![v.deep()]);
            }
            acc.push((num, DecodedValue::List(items)));
            proof {
                assert(deep_entries(acc@) =~= sp_append_repeated(de0, num, v.deep()));
            }
        },
    }
}

/// Whether field number `num` of `desc` belongs to oneof group `g`.
fn in_group(desc: &MessageDescriptor, num: u64, g: i64) -> (r: bool)
    ensures
        r == sp_in_group(desc@, num, g),
{
    match find_field(desc, num) {
        Some(i) => match desc.fields[i].oneof {
            Some(h) => h == g,
            None => false,
        },
        None => false,
    }
}

/// Removes every accumulated entry whose field belongs to oneof group `g`.
fn clear_group(desc: &MessageDescriptor, acc: Vec<(u64, DecodedValue)>, g: i64) -> (r: Vec<(u64, DecodedValue)>)
    ensures
        deep_entries(r@) == sp_clear_group(deep_entries(acc@), desc@, g, 0),
{
    let ghost full = acc@;
    let mut rest = acc;
    let mut out: Vec<(u64, DecodedValue)> = Vec::new();
    proof {
        assert(deep_entries(out@) =~= sp_clear_group(deep_entries(full), desc@, g, full.len() as int));
    }
    proof {
        assert(rest@ =~= full.subrange(0, rest@.len() as int));
    }
    while rest.len() > 0
        invariant
            rest@.len() <= full.len(),
            rest@ == full.subrange(0, rest.len() as int),
            deep_entries(out@) == sp_clear_group(deep_entries(full), desc@, g, rest.len() as int),
        decreases rest.len(),
    {
        let ghost k = rest@.len() - 1;
        proof {
            assert(full.subrange(0, k + 1) == rest@);
        }
        let e = rest.pop().unwrap();
        proof {
            assert(full.subrange(0, k + 1)[k] == full[k]);
            assert(e == full[k]);
            assert(rest@ =~= full.subrange(0, k));
            assert(deep_entries(full)[k].0 == full[k].0);
        }
        if !in_group(desc, e.0, g) {
            let ghost out0 = out@;
            out.insert(0, e);
            proof {
                assert(out@ =~= seq![e] + out0);
                assert(deep_entries(out@) =~= seq![(e.0, e.1.deep())] + deep_entries(out0));
                assert(deep_entries(full)[k] == (full[k].0, full[k].1.deep()));
                assert(deep_entries(out@) =~= sp_clear_group(deep_entries(full), desc@, g, k));
            }
        } else {
            proof {
                assert(deep_entries(out@) == sp_clear_group(deep_entries(full), desc@, g, k));
            }
        }
    }
    out
}

/// Stores one decoded occurrence of the field `desc.fields[fi]`.
fn store_field(desc: &MessageDescriptor, acc: Vec<(u64, DecodedValue)>, fi: usize, v: DecodedValue) -> (r: Vec<(u64, DecodedValue)>)
    requires
        fi < desc.fields.len(),
    ensures
        deep_entries(r@) == sp_store(desc@, deep_entries(acc@), desc@.fields[fi as int], v.deep()),
{
    let mut acc = acc;
    if desc.fields[fi].repeated {
        append_entry(&mut acc, desc.fields[fi].number, v);
        acc
    } else {
        match desc.fields[fi].oneof {
            Some(g) => {
                let mut cleared = clear_group(desc, acc, g);
                let ghost c0 = cleared@;
                cleared.push((desc.fields[fi].number, v));
                proof {
                    assert(deep_entries(cleared@) =~= deep_entries(c0).push(
                        (desc@.fields[fi as int].number, v.deep()),
                    ));
                }
                cleared
            },
            None => {
                set_entry(&mut acc, desc.fields[fi].number, v);
                acc
            },
        }
    }
}

/// Unpacks a packed span `buf[a..b]` of scalars of declared type `t`.
fn unpack_span(buf: &Vec<u8>, a: usize, b: usize, t: FieldType) -> (r: Result<Vec<DecodedValue>, DecodeError>)
    requires
        a <= b <= buf.len(),
    ensures
        match r {
            Ok(v) => sp_unpack(buf@, a as int, b as int, t, Seq::empty())
                == Ok::<Seq<SpecValue>, DecodeError>(deep_list(v@)),
            Err(e) => sp_unpack(buf@, a as int, b as int, t, Seq::empty())
                == Err::<Seq<SpecValue>, DecodeError>(e),
        },
{
    let ghost goal = sp_unpack(buf@, a as int, b as int, t, Seq::empty());
    let mut out: Vec<DecodedValue> = Vec::new();
    let mut pos = a;
    proof {
        assert(deep_list(out@) =~= Seq::<SpecValue>::empty());
    }
    while pos < b
        invariant
            a <= pos <= b <= buf.len(),
            goal == sp_unpack(buf@, a as int, b as int, t, Seq::empty()),
            goal == sp_unpack(buf@, pos as int, b as int, t, deep_list(out@)),
        decreases b - pos,
    {
        match read_scalar(buf, pos, b, t) {
            Ok((v, np)) => {
                let ghost out0 = out@;
                out.push(v);
                proof {
                    assert(deep_list(out@) =~= deep_list(out0).push(v.deep()));
                }
                pos = np;
            },
            Err(e) => {
                return Err(e);
            },
        }
    }
    Ok(out)
}

/// Appends the unpacked elements of a packed field, first element first.
fn append_all(acc: Vec<(u64, DecodedValue)>, num: u64, items: Vec<DecodedValue>) -> (r: Vec<(u64, DecodedValue)>)
    ensures
        deep_entries(r@) == sp_append_all(deep_entries(acc@), num, deep_list(items@)),
{
    let ghost goal = sp_append_all(deep_entries(acc@), num, deep_list(items@));
    let mut acc = acc;
    let mut rest = items;
    while rest.len() > 0
        invariant
            goal == sp_append_all(deep_entries(acc@), num, deep_list(rest@)),
        decreases rest.len(),
    {
        let ghost r0 = rest@;
        let e = rest.remove(0);
        proof {
            assert(rest@ =~= r0.drop_first());
            assert(deep_list(rest@) =~= deep_list(r0).drop_first());
            assert(deep_list(r0).first() == e.deep());
        }
        append_entry(&mut acc, num, e);
    }
    acc
}

/// Decodes the message occupying `buf[pos0..end]` against `desc`,
/// appending to the entries in `acc0`. Nested messages recurse at most
/// `depth` levels deep.
pub fn decode_fields(
    reg: &DescriptorRegistry,
    buf: &Vec<u8>,
    pos0: usize,
    end: usize,
    desc: &MessageDescriptor,
    depth: u32,
    cfg: DecodeConfig,
    acc0: Vec<(u64, DecodedValue)>,
) -> (r: Result<Vec<(u64, DecodedValue)>, DecodeError>)
    requires
        pos0 <= end <= buf.len(),
    ensures
        match r {
            Ok(v) => sp_decode_fields(
                reg@, buf@, pos0 as int, end as int, desc@, depth as nat, cfg, deep_entries(acc0@),
            ) == Ok::<Seq<(u64, SpecValue)>, DecodeError>(deep_entries(v@)),
            Err(e) => sp_decode_fields(
                reg@, buf@, pos0 as int, end as int, desc@, depth as nat, cfg, deep_entries(acc0@),
            ) == Err::<Seq<(u64, SpecValue)>, DecodeError>(e),
        },
    decreases end - pos0,
{
    let ghost goal = sp_decode_fields(
        reg@, buf@, pos0 as int, end as int, desc@, depth as nat, cfg, deep_entries(acc0@),
    );
    let mut pos = pos0;
    let mut acc = acc0;
    while pos < end
        invariant
            pos0 <= pos <= end <= buf.len(),
            goal == sp_decode_fields(
                reg@, buf@, pos0 as int, end as int, desc@, depth as nat, cfg, deep_entries(acc0@),
            ),
            goal == sp_decode_fields(
                reg@, buf@, pos as int, end as int, desc@, depth as nat, cfg, deep_entries(acc@),
            ),
        decreases end - pos,
    {
        let ghost de_pre = deep_entries(acc@);
        match read_tag(buf, pos, end) {
            Err(e) => {
                return Err(e);
            },
            Ok(((num, wt), p1)) => {
                match find_field(desc, num) {
                    None => {
                        match skip_payload(buf, p1, end, wt) {
                            Err(e) => {
                                return Err(e);
                            },
                            Ok(np) => {
                                if cfg.preserve_unknown_fields {
                                    let raw = copy_range(buf, p1, np);
                                    let code = wt_code(wt);
                                    acc.push((num, DecodedValue::Unknown(code, raw)));
                                    proof {
                                        assert(deep_entries(acc@) =~= de_pre.push(
                                            (num, SpecValue::Unknown(sp_wt_code(wt), buf@.subrange(p1 as int, np as int))),
                                        ));
                                    }
                                }
                                pos = np;
                            },
                        }
                    },
                    Some(fi) => {
                        let ghost fd = desc@.fields[fi as int];
                        let ft = desc.fields[fi].ftype;
                        match wt {
                            WireType::Len => {
                                match read_len_payload(buf, p1, end) {
                                    Err(e) => {
                                        return Err(e);
                                    },
                                    Ok(((a, b), np)) => {
                                        match ft {
                                            FieldType::Message => {
                                                if depth == 0 {
                                                    return Err(DecodeError::RecursionLimitExceeded);
                                                }
                                                match reg.lookup_message(&desc.fields[fi].ref_name) {
                                                    None => {
                                                        return Err(DecodeError::UnknownType);
                                                    },
                                                    Some(mi) => {
                                                        let empty_acc: Vec<(u64, DecodedValue)> = Vec::new();
                                                        proof {
                                                            assert(deep_entries(empty_acc@)
                                                                =~= Seq::<(u64, SpecValue)>::empty());
                                                        }
                                                        match decode_fields(
                                                            reg, buf, a, b, &reg.messages[mi],
                                                            depth - 1, cfg, empty_acc,
                                                        ) {
                                                            Err(e) => {
                                                                return Err(e);
                                                            },
                                                            Ok(subv) => {
                                                                proof {
                                                                    lemma_deep_msg_eq(subv);
                                                                }
                                                                let v = DecodedValue::Msg(subv);
                                                                acc = store_field(desc, acc, fi, v);
                                                                pos = np;
                                                            },
                                                        }
                                                    },
                                                }
                                            },
                                            FieldType::Str => {
                                                let sbytes = copy_range(buf, a, b);
                                                acc = store_field(desc, acc, fi, DecodedValue::Str(sbytes));
                                                pos = np;
                                            },
                                            FieldType::Bytes => {
                                                let sbytes = copy_range(buf, a, b);
                                                acc = store_field(desc, acc, fi, DecodedValue::Bytes(sbytes));
                                                pos = np;
                                            },
                                            FieldType::Group => {
                                                pos = np;
                                            },
                                            _ => {
                                                if desc.fields[fi].repeated {
                                                    match unpack_span(buf, a, b, ft) {
                                                        Err(e) => {
                                                            return Err(e);
                                                        },
                                                        Ok(items) => {
                                                            acc = append_all(acc, desc.fields[fi].number, items);
                                                            pos = np;
                                                        },
                                                    }
                                                } else {
                                                    pos = np;
                                                }
                                            },
                                        }
                                    },
                                }
                            },
                            _ => {
                                let ew = expected_wire(ft);
                                if wt == ew {
                                    match read_scalar(buf, p1, end, ft) {
                                        Err(e) => {
                                            return Err(e);
                                        },
                                        Ok((v, np)) => {
                                            acc = store_field(desc, acc, fi, v);
                                            pos = np;
                                        },
                                    }
                                } else {
                                    match skip_payload(buf, p1, end, wt) {
                                        Err(e) => {
                                            return Err(e);
                                        },
                                        Ok(np) => {
                                            pos = np;
                                        },
                                    }
                                }
                            },
                        }
                    },
                }
            },
        }
    }
    Ok(acc)
}

} // verus!
