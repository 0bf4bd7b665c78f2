use vstd::prelude::*;

verus! {

use crate::DecodeError;
use crate::descriptor::{
    EnumDescriptor, FieldDescriptor, MessageDescriptor, SpecEnumDesc, SpecField, SpecMessageDesc,
    SpecRegistry, DescriptorRegistry,
};
use crate::value::{FieldType, sp_as_i32, sp_low32, as_i32, low32};
use crate::wire::{
    WireType, copy_range, read_len_payload, read_tag, read_varint, skip_payload, sp_len_payload,
    sp_skip, sp_tag, sp_varint,
};

/// Models a list of message descriptors.
pub open spec fn deep_mdescs(v: Seq<MessageDescriptor>) -> Seq<SpecMessageDesc> {
    Seq::new(v.len(), |i: int| v[i]@)
}

/// Models a list of enum descriptors.
pub open spec fn deep_edescs(v: Seq<EnumDescriptor>) -> Seq<SpecEnumDesc> {
    Seq::new(v.len(), |i: int| v[i]@)
}

/// Models a list of field descriptors.
pub open spec fn deep_fdescs(v: Seq<FieldDescriptor>) -> Seq<SpecField> {
    Seq::new(v.len(), |i: int| v[i]@)
}

/// Models a list of enum values.
pub open spec fn deep_evals(v: Seq<(i64, Vec<u8>)>) -> Seq<(i64, Seq<u8>)> {
    Seq::new(v.len(), |i: int| (v[i].0, v[i].1@))
}

/// `prefix.name`: one dot, then the simple name, after the prefix.
pub open spec fn sp_join(prefix: Seq<u8>, nm: Seq<u8>) -> Seq<u8> {
    prefix + seq![46u8] + nm
}

pub fn join_name(prefix: &Vec<u8>, nm: &Vec<u8>) -> (r: Vec<u8>)
    ensures
        r@ == sp_join(prefix@, nm@),
{
    let mut out = copy_range(prefix, 0, prefix.len());
    out.push(46);
    let mut tail = copy_range(nm, 0, nm.len());
    out.append(&mut tail);
    proof {
        assert(prefix@.subrange(0, prefix.len() as int) =~= prefix@);
        assert(nm@.subrange(0, nm.len() as int) =~= nm@);
        assert(out@ =~= sp_join(prefix@, nm@));
    }
    out
}

/// Payload of the last length-delimited occurrence of field `num` in
/// `s[pos..end]`; `acc` when the field does not occur.
pub open spec fn sp_scan_str(s: Seq<u8>, pos: int, end: int, num: u64, acc: Seq<u8>) -> Result<Seq<u8>, DecodeError>
    decreases end - pos,
{
    if pos >= end {
        Ok(acc)
    } else {
        match sp_tag(s, pos, end) {
            Err(e) => Err(e),
            Ok(((n, wt), p1)) => if !(pos < p1 <= end) {
                Err(DecodeError::TruncatedInput)
            } else if wt is Len {
                match sp_len_payload(s, p1, end) {
                    Err(e) => Err(e),
                    Ok(((a, b), np)) => if !(p1 < a <= b <= end && np == b) {
                        Err(DecodeError::TruncatedInput)
                    } else {
                        sp_scan_str(s, np, end, num, if n == num { s.subrange(a, b) } else { acc })
                    },
                }
            } else {
                match sp_skip(s, p1, end, wt) {
                    Err(e) => Err(e),
                    Ok(np) => if !(p1 < np <= end) {
                        Err(DecodeError::TruncatedInput)
                    } else {
                        sp_scan_str(s, np, end, num, acc)
                    },
                }
            },
        }
    }
}

/// Value of the last varint occurrence of field `num` in `s[pos..end]`,
/// as a boolean; `acc` when the field does not occur.
pub open spec fn sp_scan_bool(s: Seq<u8>, pos: int, end: int, num: u64, acc: bool) -> Result<bool, DecodeError>
    decreases end - pos,
{
    if pos >= end {
        Ok(acc)
    } else {
        match sp_tag(s, pos, end) {
            Err(e) => Err(e),
            Ok(((n, wt), p1)) => if !(pos < p1 <= end) {
                Err(DecodeError::TruncatedInput)
            } else if wt is Varint {
                match sp_varint(s, p1, end, 10) {
                    Err(e) => Err(e),
                    Ok((v, np)) => if !(p1 < np <= end) {
                        Err(DecodeError::TruncatedInput)
                    } else {
                        sp_scan_bool(s, np, end, num, if n == num { v != 0 } else { acc })
                    },
                }
            } else {
                match sp_skip(s, p1, end, wt) {
                    Err(e) => Err(e),
                    Ok(np) => if !(p1 < np <= end) {
                        Err(DecodeError::TruncatedInput)
                    } else {
                        sp_scan_bool(s, np, end, num, acc)
                    },
                }
            },
        }
    }
}

/// The declared field type for a descriptor type code; codes outside the
/// closed set fall back to the group type, which the decoder skips.
pub open spec fn sp_ftype_of(v: u64) -> FieldType {
    if v == 1 { FieldType::Double }
    else if v == 2 { FieldType::Float }
    else if v == 3 { FieldType::Int64 }
    else if v == 4 { FieldType::Uint64 }
    else if v == 5 { FieldType::Int32 }
    else if v == 6 { FieldType::Fixed64 }
    else if v == 7 { FieldType::Fixed32 }
    else if v == 8 { FieldType::Bool }
    else if v == 9 { FieldType::Str }
    else if v == 10 { FieldType::Group }
    else if v == 11 { FieldType::Message }
    else if v == 12 { FieldType::Bytes }
    else if v == 13 { FieldType::Uint32 }
    else if v == 14 { FieldType::Enum }
    else if v == 15 { FieldType::Sfixed32 }
    else if v == 16 { FieldType::Sfixed64 }
    else if v == 17 { FieldType::Sint32 }
    else if v == 18 { FieldType::Sint64 }
    else { FieldType::Group }
}

pub fn ftype_of(v: u64) -> (r: FieldType)
    ensures
        r == sp_ftype_of(v),
{
    if v == 1 { FieldType::Double }
    else if v == 2 { FieldType::Float }
    else if v == 3 { FieldType::Int64 }
    else if v == 4 { FieldType::Uint64 }
    else if v == 5 { FieldType::Int32 }
    else if v == 6 { FieldType::Fixed64 }
    else if v == 7 { FieldType::Fixed32 }
    else if v == 8 { FieldType::Bool }
    else if v == 9 { FieldType::Str }
    else if v == 10 { FieldType::Group }
    else if v == 11 { FieldType::Message }
    else if v == 12 { FieldType::Bytes }
    else if v == 13 { FieldType::Uint32 }
    else if v == 14 { FieldType::Enum }
    else if v == 15 { FieldType::Sfixed32 }
    else if v == 16 { FieldType::Sfixed64 }
    else if v == 17 { FieldType::Sint32 }
    else if v == 18 { FieldType::Sint64 }
    else { FieldType::Group }
}

/// One field declaration of a message type: name (1), number (3),
/// label (4), type (5), referenced type name (6), oneof index (9).
pub open spec fn sp_parse_field(s: Seq<u8>, pos: int, end: int, acc: SpecField) -> Result<SpecField, DecodeError>
    decreases end - pos,
{
    if pos >= end {
        Ok(acc)
    } else {
        match sp_tag(s, pos, end) {
            Err(e) => Err(e),
            Ok(((n, wt), p1)) => if !(pos < p1 <= end) {
                Err(DecodeError::TruncatedInput)
            } else if wt is Len {
                match sp_len_payload(s, p1, end) {
                    Err(e) => Err(e),
                    Ok(((a, b), np)) => if !(p1 < a <= b <= end && np == b) {
                        Err(DecodeError::TruncatedInput)
                    } else {
                        let acc2 = if n == 1 {
                            SpecField { name: s.subrange(a, b), ..acc }
                        } else if n == 6 {
                            SpecField { ref_name: s.subrange(a, b), ..acc }
                        } else {
                            acc
                        };
                        sp_parse_field(s, np, end, acc2)
                    },
                }
            } else if wt is Varint {
                match sp_varint(s, p1, end, 10) {
                    Err(e) => Err(e),
                    Ok((v, np)) => if !(p1 < np <= end) {
                        Err(DecodeError::TruncatedInput)
                    } else {
                        let acc2 = if n == 3 {
                            SpecField { number: sp_low32(v), ..acc }
                        } else if n == 4 {
                            SpecField { repeated: v == 3, ..acc }
                        } else if n == 5 {
                            SpecField { ftype: sp_ftype_of(v), ..acc }
                        } else if n == 9 {
                            SpecField { oneof: Some(sp_as_i32(v)), ..acc }
                        } else {
                            acc
                        };
                        sp_parse_field(s, np, end, acc2)
                    },
                }
            } else {
                match sp_skip(s, p1, end, wt) {
                    Err(e) => Err(e),
                    Ok(np) => if !(p1 < np <= end) {
                        Err(DecodeError::TruncatedInput)
                    } else {
                        sp_parse_field(s, np, end, acc)
                    },
                }
            },
        }
    }
}

/// One enum value declaration: name (1) and number (2).
pub open spec fn sp_parse_enum_value(s: Seq<u8>, pos: int, end: int, acc: (i64, Seq<u8>)) -> Result<(i64, Seq<u8>), DecodeError>
    decreases end - pos,
{
    if pos >= end {
        Ok(acc)
    } else {
        match sp_tag(s, pos, end) {
            Err(e) => Err(e),
            Ok(((n, wt), p1)) => if !(pos < p1 <= end) {
                Err(DecodeError::TruncatedInput)
            } else if wt is Len {
                match sp_len_payload(s, p1, end) {
                    Err(e) => Err(e),
                    Ok(((a, b), np)) => if !(p1 < a <= b <= end && np == b) {
                        Err(DecodeError::TruncatedInput)
                    } else {
                        let acc2 = if n == 1 { (acc.0, s.subrange(a, b)) } else { acc };
                        sp_parse_enum_value(s, np, end, acc2)
                    },
                }
            } else if wt is Varint {
                match sp_varint(s, p1, end, 10) {
                    Err(e) => Err(e),
                    Ok((v, np)) => if !(p1 < np <= end) {
                        Err(DecodeError::TruncatedInput)
                    } else {
                        let acc2 = if n == 2 { (sp_as_i32(v), acc.1) } else { acc };
                        sp_parse_enum_value(s, np, end, acc2)
                    },
                }
            } else {
                match sp_skip(s, p1, end, wt) {
                    Err(e) => Err(e),
                    Ok(np) => if !(p1 < np <= end) {
                        Err(DecodeError::TruncatedInput)
                    } else {
                        sp_parse_enum_value(s, np, end, acc)
                    },
                }
            },
        }
    }
}

/// The values (2) of an enum declaration, appended in declaration order.
pub open spec fn sp_parse_enum_body(s: Seq<u8>, pos: int, end: int, acc: Seq<(i64, Seq<u8>)>) -> Result<Seq<(i64, Seq<u8>)>, DecodeError>
    decreases end - pos,
{
    if pos >= end {
        Ok(acc)
    } else {
        match sp_tag(s, pos, end) {
            Err(e) => Err(e),
            Ok(((n, wt), p1)) => if !(pos < p1 <= end) {
                Err(DecodeError::TruncatedInput)
            } else if wt is Len {
                match sp_len_payload(s, p1, end) {
                    Err(e) => Err(e),
                    Ok(((a, b), np)) => if !(p1 < a <= b <= end && np == b) {
                        Err(DecodeError::TruncatedInput)
                    } else if n == 2 {
                        match sp_parse_enum_value(s, a, b, (0, Seq::empty())) {
                            Err(e) => Err(e),
                            Ok(val) => sp_parse_enum_body(s, np, end, acc.push(val)),
                        }
                    } else {
                        sp_parse_enum_body(s, np, end, acc)
                    },
                }
            } else {
                match sp_skip(s, p1, end, wt) {
                    Err(e) => Err(e),
                    Ok(np) => if !(p1 < np <= end) {
                        Err(DecodeError::TruncatedInput)
                    } else {
                        sp_parse_enum_body(s, np, end, acc)
                    },
                }
            },
        }
    }
}

/// One enum declaration in `s[pos..end]`, qualified under `prefix`.
pub open spec fn sp_parse_enum(s: Seq<u8>, pos: int, end: int, prefix: Seq<u8>) -> Result<SpecEnumDesc, DecodeError> {
    match sp_scan_str(s, pos, end, 1, Seq::empty()) {
        Err(e) => Err(e),
        Ok(nm) => match sp_parse_enum_body(s, pos, end, Seq::empty()) {
            Err(e) => Err(e),
            Ok(values) => Ok(SpecEnumDesc { name: sp_join(prefix, nm), values }),
        },
    }
}

/// The body of one message declaration: its fields (2), nested types (3),
/// nested enums (4) and options (7), walked in wire order. Nested message
/// and enum declarations land in the accumulated registry lists.
pub open spec fn sp_parse_msg_body(
    s: Seq<u8>,
    pos: int,
    end: int,
    fqn: Seq<u8>,
    msgs: Seq<SpecMessageDesc>,
    enums: Seq<SpecEnumDesc>,
    fields: Seq<SpecField>,
    map_entry: bool,
) -> Result<(Seq<SpecMessageDesc>, Seq<SpecEnumDesc>, Seq<SpecField>, bool), DecodeError>
    decreases end - pos, 0int,
{
    if pos >= end {
        Ok((msgs, enums, fields, map_entry))
    } else {
        match sp_tag(s, pos, end) {
            Err(e) => Err(e),
            Ok(((n, wt), p1)) => if !(pos < p1 <= end) {
                Err(DecodeError::TruncatedInput)
            } else if wt is Len {
                match sp_len_payload(s, p1, end) {
                    Err(e) => Err(e),
                    Ok(((a, b), np)) => if !(p1 < a <= b <= end && np == b) {
                        Err(DecodeError::TruncatedInput)
                    } else if n == 2 {
                        match sp_parse_field(s, a, b, SpecField {
                            number: 0,
                            name: Seq::empty(),
                            ftype: FieldType::Group,
                            repeated: false,
                            oneof: None,
                            ref_name: Seq::empty(),
                        }) {
                            Err(e) => Err(e),
                            Ok(fd) => sp_parse_msg_body(
                                s, np, end, fqn, msgs, enums, fields.push(fd), map_entry,
                            ),
                        }
                    } else if n == 3 {
                        match sp_parse_message(s, a, b, fqn, msgs, enums) {
                            Err(e) => Err(e),
                            Ok((m2, e2)) => sp_parse_msg_body(
                                s, np, end, fqn, m2, e2, fields, map_entry,
                            ),
                        }
                    } else if n == 4 {
                        match sp_parse_enum(s, a, b, fqn) {
                            Err(e) => Err(e),
                            Ok(ed) => sp_parse_msg_body(
                                s, np, end, fqn, msgs, enums.push(ed), fields, map_entry,
                            ),
                        }
                    } else if n == 7 {
                        match sp_scan_bool(s, a, b, 7, false) {
                            Err(e) => Err(e),
                            Ok(me) => sp_parse_msg_body(s, np, end, fqn, msgs, enums, fields, me),
                        }
                    } else {
                        sp_parse_msg_body(s, np, end, fqn, msgs, enums, fields, map_entry)
                    },
                }
            } else {
                match sp_skip(s, p1, end, wt) {
                    Err(e) => Err(e),
                    Ok(np) => if !(p1 < np <= end) {
                        Err(DecodeError::TruncatedInput)
                    } else {
                        sp_parse_msg_body(s, np, end, fqn, msgs, enums, fields, map_entry)
                    },
                }
            },
        }
    }
}

/// One message declaration in `s[pos..end]`, qualified under `prefix`;
/// the declaration itself and everything nested in it land in the
/// accumulated registry lists.
pub open spec fn sp_parse_message(
    s: Seq<u8>,
    pos: int,
    end: int,
    prefix: Seq<u8>,
    msgs: Seq<SpecMessageDesc>,
    enums: Seq<SpecEnumDesc>,
) -> Result<(Seq<SpecMessageDesc>, Seq<SpecEnumDesc>), DecodeError>
    decreases end - pos, 1int,
{
    match sp_scan_str(s, pos, end, 1, Seq::empty()) {
        Err(e) => Err(e),
        Ok(nm) => {
            let fqn = sp_join(prefix, nm);
            match sp_parse_msg_body(s, pos, end, fqn, msgs, enums, Seq::empty(), false) {
                Err(e) => Err(e),
                Ok((m2, e2, fields, map_entry)) => Ok((
                    m2.push(SpecMessageDesc { name: fqn, fields, map_entry }),
                    e2,
                )),
            }
        },
    }
}

/// The body of one file declaration: its messages (4) and enums (5),
/// qualified under the file's package prefix.
pub open spec fn sp_parse_file_body(
    s: Seq<u8>,
    pos: int,
    end: int,
    prefix: Seq<u8>,
    msgs: Seq<SpecMessageDesc>,
    enums: Seq<SpecEnumDesc>,
) -> Result<(Seq<SpecMessageDesc>, Seq<SpecEnumDesc>), DecodeError>
    decreases end - pos, 0int,
{
    if pos >= end {
        Ok((msgs, enums))
    } else {
        match sp_tag(s, pos, end) {
            Err(e) => Err(e),
            Ok(((n, wt), p1)) => if !(pos < p1 <= end) {
                Err(DecodeError::TruncatedInput)
            } else if wt is Len {
                match sp_len_payload(s, p1, end) {
                    Err(e) => Err(e),
                    Ok(((a, b), np)) => if !(p1 < a <= b <= end && np == b) {
                        Err(DecodeError::TruncatedInput)
                    } else if n == 4 {
                        match sp_parse_message(s, a, b, prefix, msgs, enums) {
                            Err(e) => Err(e),
                            Ok((m2, e2)) => sp_parse_file_body(s, np, end, prefix, m2, e2),
                        }
                    } else if n == 5 {
                        match sp_parse_enum(s, a, b, prefix) {
                            Err(e) => Err(e),
                            Ok(ed) => sp_parse_file_body(s, np, end, prefix, msgs, enums.push(ed)),
                        }
                    } else {
                        sp_parse_file_body(s, np, end, prefix, msgs, enums)
                    },
                }
            } else {
                match sp_skip(s, p1, end, wt) {
                    Err(e) => Err(e),
                    Ok(np) => if !(p1 < np <= end) {
                        Err(DecodeError::TruncatedInput)
                    } else {
                        sp_parse_file_body(s, np, end, prefix, msgs, enums)
                    },
                }
            },
        }
    }
}

/// One file declaration: the package (2) qualifies every declaration.
pub open spec fn sp_parse_file(
    s: Seq<u8>,
    pos: int,
    end: int,
    msgs: Seq<SpecMessageDesc>,
    enums: Seq<SpecEnumDesc>,
) -> Result<(Seq<SpecMessageDesc>, Seq<SpecEnumDesc>), DecodeError>
    decreases end - pos, 1int,
{
    match sp_scan_str(s, pos, end, 2, Seq::empty()) {
        Err(e) => Err(e),
        Ok(pkg) => {
            let prefix = if pkg.len() == 0 { pkg } else { seq![46u8] + pkg };
            sp_parse_file_body(s, pos, end, prefix, msgs, enums)
        },
    }
}

/// A whole descriptor set: its files (1), in order.
pub open spec fn sp_parse_set(
    s: Seq<u8>,
    pos: int,
    end: int,
    msgs: Seq<SpecMessageDesc>,
    enums: Seq<SpecEnumDesc>,
) -> Result<(Seq<SpecMessageDesc>, Seq<SpecEnumDesc>), DecodeError>
    decreases end - pos, 2int,
{
    if pos >= end {
        Ok((msgs, enums))
    } else {
        match sp_tag(s, pos, end) {
            Err(e) => Err(e),
            Ok(((n, wt), p1)) => if !(pos < p1 <= end) {
                Err(DecodeError::TruncatedInput)
            } else if wt is Len {
                match sp_len_payload(s, p1, end) {
                    Err(e) => Err(e),
                    Ok(((a, b), np)) => if !(p1 < a <= b <= end && np == b) {
                        Err(DecodeError::TruncatedInput)
                    } else if n == 1 {
                        match sp_parse_file(s, a, b, msgs, enums) {
                            Err(e) => Err(e),
                            Ok((m2, e2)) => sp_parse_set(s, np, end, m2, e2),
                        }
                    } else {
                        sp_parse_set(s, np, end, msgs, enums)
                    },
                }
            } else {
                match sp_skip(s, p1, end, wt) {
                    Err(e) => Err(e),
                    Ok(np) => if !(p1 < np <= end) {
                        Err(DecodeError::TruncatedInput)
                    } else {
                        sp_parse_set(s, np, end, msgs, enums)
                    },
                }
            },
        }
    }
}

/// The registry parsed from a descriptor-set byte buffer: every message
/// and enum declaration of every file, flattened under fully-qualified
/// names. Malformed bytes are one fatal error.
pub open spec fn sp_load_registry(s: Seq<u8>) -> Result<SpecRegistry, DecodeError> {
    match sp_parse_set(s, 0, s.len() as int, Seq::empty(), Seq::empty()) {
        Err(_) => Err(DecodeError::DescriptorParseError),
        Ok((msgs, enums)) => Ok(SpecRegistry { messages: msgs, enums }),
    }
}

fn scan_str(buf: &Vec<u8>, pos0: usize, end: usize, num: u64) -> (r: Result<Vec<u8>, DecodeError>)
    requires
        pos0 <= end <= buf.len(),
    ensures
        match r {
            Ok(v) => sp_scan_str(buf@, pos0 as int, end as int, num, Seq::empty())
                == Ok::<Seq<u8>, DecodeError>(v@),
            Err(e) => sp_scan_str(buf@, pos0 as int, end as int, num, Seq::empty())
                == Err::<Seq<u8>, DecodeError>(e),
        },
{
    let ghost goal = sp_scan_str(buf@, pos0 as int, end as int, num, Seq::empty());
    let mut acc: Vec<u8> = Vec::new();
    let mut pos = pos0;
    proof {
        assert(acc@ =~= Seq::<u8>::empty());
    }
    while pos < end
        invariant
            pos0 <= pos <= end <= buf.len(),
            goal == sp_scan_str(buf@, pos0 as int, end as int, num, Seq::empty()),
            goal == sp_scan_str(buf@, pos as int, end as int, num, acc@),
        decreases end - pos,
    {
        match read_tag(buf, pos, end) {
            Err(e) => {
                return Err(e);
            },
            Ok(((n, wt), p1)) => match wt {
                WireType::Len => match read_len_payload(buf, p1, end) {
                    Err(e) => {
                        return Err(e);
                    },
                    Ok(((a, b), np)) => {
                        if n == num {
                            acc = copy_range(buf, a, b);
                        }
                        pos = np;
                    },
                },
                _ => match skip_payload(buf, p1, end, wt) {
                    Err(e) => {
                        return Err(e);
                    },
                    Ok(np) => {
                        pos = np;
                    },
                },
            },
        }
    }
    Ok(acc)
}

fn scan_bool(buf: &Vec<u8>, pos0: usize, end: usize, num: u64) -> (r: Result<bool, DecodeError>)
    requires
        pos0 <= end <= buf.len(),
    ensures
        match r {
            Ok(v) => sp_scan_bool(buf@, pos0 as int, end as int, num, false)
                == Ok::<bool, DecodeError>(v),
            Err(e) => sp_scan_bool(buf@, pos0 as int, end as int, num, false)
                == Err::<bool, DecodeError>(e),
        },
{
    let ghost goal = sp_scan_bool(buf@, pos0 as int, end as int, num, false);
    let mut acc = false;
    let mut pos = pos0;
    while pos < end
        invariant
            pos0 <= pos <= end <= buf.len(),
            goal == sp_scan_bool(buf@, pos0 as int, end as int, num, false),
            goal == sp_scan_bool(buf@, pos as int, end as int, num, acc),
        decreases end - pos,
    {
        match read_tag(buf, pos, end) {
            Err(e) => {
                return Err(e);
            },
            Ok(((n, wt), p1)) => match wt {
                WireType::Varint => match read_varint(buf, p1, end, 10) {
                    Err(e) => {
                        return Err(e);
                    },
                    Ok((v, np)) => {
                        if n == num {
                            acc = v != 0;
                        }
                        pos = np;
                    },
                },
                _ => match skip_payload(buf, p1, end, wt) {
                    Err(e) => {
                        return Err(e);
                    },
                    Ok(np) => {
                        pos = np;
                    },
                },
            },
        }
    }
    Ok(acc)
}

fn parse_field(buf: &Vec<u8>, pos0: usize, end: usize) -> (r: Result<FieldDescriptor, DecodeError>)
    requires
        pos0 <= end <= buf.len(),
    ensures
        match r {
            Ok(fd) => sp_parse_field(buf@, pos0 as int, end as int, SpecField {
                number: 0,
                name: Seq::empty(),
                ftype: FieldType::Group,
                repeated: false,
                oneof: None,
                ref_name: Seq::empty(),
            }) == Ok::<SpecField, DecodeError>(fd@),
            Err(e) => sp_parse_field(buf@, pos0 as int, end as int, SpecField {
                number: 0,
                name: Seq::empty(),
                ftype: FieldType::Group,
                repeated: false,
                oneof: None,
                ref_name: Seq::empty(),
            }) == Err::<SpecField, DecodeError>(e),
        },
{
    let mut fd = FieldDescriptor {
        number: 0,
        name: Vec::new(),
        ftype: FieldType::Group,
        repeated: false,
        oneof: None,
        ref_name: Vec::new(),
    };
    let ghost goal = sp_parse_field(buf@, pos0 as int, end as int, fd@);
    proof {
        assert(fd@.name =~= Seq::<u8>::empty());
        assert(fd@.ref_name =~= Seq::<u8>::empty());
    }
    let mut pos = pos0;
    while pos < end
        invariant
            pos0 <= pos <= end <= buf.len(),
            goal == sp_parse_field(buf@, pos0 as int, end as int, SpecField {
                number: 0,
                name: Seq::empty(),
                ftype: FieldType::Group,
                repeated: false,
                oneof: None,
                ref_name: Seq::empty(),
            }),
            goal == sp_parse_field(buf@, pos as int, end as int, fd@),
        decreases end - pos,
    {
        match read_tag(buf, pos, end) {
            Err(e) => {
                return Err(e);
            },
            Ok(((n, wt), p1)) => match wt {
                WireType::Len => match read_len_payload(buf, p1, end) {
                    Err(e) => {
                        return Err(e);
                    },
                    Ok(((a, b), np)) => {
                        if n == 1 {
                            fd.name = copy_range(buf, a, b);
                        } else if n == 6 {
                            fd.ref_name = copy_range(buf, a, b);
                        }
                        pos = np;
                    },
                },
                WireType::Varint => match read_varint(buf, p1, end, 10) {
                    Err(e) => {
                        return Err(e);
                    },
                    Ok((v, np)) => {
                        if n == 3 {
                            fd.number = low32(v);
                        } else if n == 4 {
                            fd.repeated = v == 3;
                        } else if n == 5 {
                            fd.ftype = ftype_of(v);
                        } else if n == 9 {
                            fd.oneof = Some(as_i32(v));
                        }
                        pos = np;
                    },
                },
                _ => match skip_payload(buf, p1, end, wt) {
                    Err(e) => {
                        return Err(e);
                    },
                    Ok(np) => {
                        pos = np;
                    },
                },
            },
        }
    }
    Ok(fd)
}

fn parse_enum_value(buf: &Vec<u8>, pos0: usize, end: usize) -> (r: Result<(i64, Vec<u8>), DecodeError>)
    requires
        pos0 <= end <= buf.len(),
    ensures
        match r {
            Ok(p) => sp_parse_enum_value(buf@, pos0 as int, end as int, (0, Seq::empty()))
                == Ok::<(i64, Seq<u8>), DecodeError>((p.0, p.1@)),
            Err(e) => sp_parse_enum_value(buf@, pos0 as int, end as int, (0, Seq::empty()))
                == Err::<(i64, Seq<u8>), DecodeError>(e),
        },
{
    let mut num: i64 = 0;
    let mut name: Vec<u8> = Vec::new();
    let ghost goal = sp_parse_enum_value(buf@, pos0 as int, end as int, (0, Seq::empty()));
    proof {
        assert(name@ =~= Seq::<u8>::empty());
    }
    let mut pos = pos0;
    while pos < end
        invariant
            pos0 <= pos <= end <= buf.len(),
            goal == sp_parse_enum_value(buf@, pos0 as int, end as int, (0, Seq::empty())),
            goal == sp_parse_enum_value(buf@, pos as int, end as int, (num, name@)),
        decreases end - pos,
    {
        match read_tag(buf, pos, end) {
            Err(e) => {
                return Err(e);
            },
            Ok(((n, wt), p1)) => match wt {
                WireType::Len => match read_len_payload(buf, p1, end) {
                    Err(e) => {
                        return Err(e);
                    },
                    Ok(((a, b), np)) => {
                        if n == 1 {
                            name = copy_range(buf, a, b);
                        }
                        pos = np;
                    },
                },
                WireType::Varint => match read_varint(buf, p1, end, 10) {
                    Err(e) => {
                        return Err(e);
                    },
                    Ok((v, np)) => {
                        if n == 2 {
                            num = as_i32(v);
                        }
                        pos = np;
                    },
                },
                _ => match skip_payload(buf, p1, end, wt) {
                    Err(e) => {
                        return Err(e);
                    },
                    Ok(np) => {
                        pos = np;
                    },
                },
            },
        }
    }
    Ok((num, name))
}

fn parse_enum(buf: &Vec<u8>, pos0: usize, end: usize, prefix: &Vec<u8>) -> (r: Result<EnumDescriptor, DecodeError>)
    requires
        pos0 <= end <= buf.len(),
    ensures
        match r {
            Ok(ed) => sp_parse_enum(buf@, pos0 as int, end as int, prefix@)
                == Ok::<SpecEnumDesc, DecodeError>(ed@),
            Err(e) => sp_parse_enum(buf@, pos0 as int, end as int, prefix@)
                == Err::<SpecEnumDesc, DecodeError>(e),
        },
{
    let nm = match scan_str(buf, pos0, end, 1) {
        Ok(nm) => nm,
        Err(e) => {
            return Err(e);
        },
    };
    let name = join_name(prefix, &nm);
    let ghost goal = sp_parse_enum_body(buf@, pos0 as int, end as int, Seq::empty());
    let mut values: Vec<(i64, Vec<u8>)> = Vec::new();
    proof {
        assert(deep_evals(values@) =~= Seq::<(i64, Seq<u8>)>::empty());
    }
    let mut pos = pos0;
    while pos < end
        invariant
            pos0 <= pos <= end <= buf.len(),
            goal == sp_parse_enum_body(buf@, pos0 as int, end as int, Seq::empty()),
            sp_parse_enum(buf@, pos0 as int, end as int, prefix@) == (match goal {
                Ok(values) => Ok::<SpecEnumDesc, DecodeError>(SpecEnumDesc { name: name@, values }),
                Err(e) => Err::<SpecEnumDesc, DecodeError>(e),
            }),
            goal == sp_parse_enum_body(buf@, pos as int, end as int, deep_evals(values@)),
        decreases end - pos,
    {
        match read_tag(buf, pos, end) {
            Err(e) => {
                return Err(e);
            },
            Ok(((n, wt), p1)) => match wt {
                WireType::Len => match read_len_payload(buf, p1, end) {
                    Err(e) => {
                        return Err(e);
                    },
                    Ok(((a, b), np)) => {
                        if n == 2 {
                            match parse_enum_value(buf, a, b) {
                                Err(e) => {
                                    return Err(e);
                                },
                                Ok(val) => {
                                    let ghost v0 = values@;
                                    values.push(val);
                                    proof {
                                        assert(deep_evals(values@) =~= deep_evals(v0).push(
                                            (val.0, val.1@),
                                        ));
                                    }
                                },
                            }
                        }
                        pos = np;
                    },
                },
                _ => match skip_payload(buf, p1, end, wt) {
                    Err(e) => {
                        return Err(e);
                    },
                    Ok(np) => {
                        pos = np;
                    },
                },
            },
        }
    }
    let ed = EnumDescriptor { name, values };
    proof {
        assert(ed@.values =~= deep_evals(ed.values@));
    }
    Ok(ed)
}

/// One message declaration, its nested declarations included.
#[verifier::rlimit(50)]
fn parse_message(
    buf: &Vec<u8>,
    pos0: usize,
    end: usize,
    prefix: &Vec<u8>,
    msgs: Vec<MessageDescriptor>,
    enums: Vec<EnumDescriptor>,
) -> (r: Result<(Vec<MessageDescriptor>, Vec<EnumDescriptor>), DecodeError>)
    requires
        pos0 <= end <= buf.len(),
    ensures
        match r {
            Ok(p) => sp_parse_message(
                buf@, pos0 as int, end as int, prefix@, deep_mdescs(msgs@), deep_edescs(enums@),
            ) == Ok::<(Seq<SpecMessageDesc>, Seq<SpecEnumDesc>), DecodeError>(
                (deep_mdescs(p.0@), deep_edescs(p.1@)),
            ),
            Err(e) => sp_parse_message(
                buf@, pos0 as int, end as int, prefix@, deep_mdescs(msgs@), deep_edescs(enums@),
            ) == Err::<(Seq<SpecMessageDesc>, Seq<SpecEnumDesc>), DecodeError>(e),
        },
    decreases end - pos0, 1int,
{
    let ghost gm0 = deep_mdescs(msgs@);
    let ghost ge0 = deep_edescs(enums@);
    let nm = match scan_str(buf, pos0, end, 1) {
        Ok(nm) => nm,
        Err(e) => {
            return Err(e);
        },
    };
    let fqn = join_name(prefix, &nm);
    let ghost goal = sp_parse_msg_body(
        buf@, pos0 as int, end as int, fqn@, gm0, ge0, Seq::empty(), false,
    );
    let mut cur_msgs = msgs;
    let mut cur_enums = enums;
    let mut fields: Vec<FieldDescriptor> = Vec::new();
    let mut map_entry = false;
    proof {
        assert(deep_fdescs(fields@) =~= Seq::<SpecField>::empty());
    }
    let mut pos = pos0;
    while pos < end
        invariant
            pos0 <= pos <= end <= buf.len(),
            goal == sp_parse_msg_body(
                buf@, pos0 as int, end as int, fqn@, gm0, ge0, Seq::empty(), false,
            ),
            sp_parse_message(
                buf@, pos0 as int, end as int, prefix@, gm0, ge0,
            ) == (match goal {
                Ok(t) => Ok::<(Seq<SpecMessageDesc>, Seq<SpecEnumDesc>), DecodeError>(
                    (t.0.push(SpecMessageDesc { name: fqn@, fields: t.2, map_entry: t.3 }), t.1),
                ),
                Err(e) => Err::<(Seq<SpecMessageDesc>, Seq<SpecEnumDesc>), DecodeError>(e),
            }),
            gm0 == deep_mdescs(msgs@),
            ge0 == deep_edescs(enums@),
            goal == sp_parse_msg_body(
                buf@, pos as int, end as int, fqn@, deep_mdescs(cur_msgs@), deep_edescs(cur_enums@),
                deep_fdescs(fields@), map_entry,
            ),
        decreases end - pos,
    {
        match read_tag(buf, pos, end) {
            Err(e) => {
                return Err(e);
            },
            Ok(((n, wt), p1)) => match wt {
                WireType::Len => match read_len_payload(buf, p1, end) {
                    Err(e) => {
                        return Err(e);
                    },
                    Ok(((a, b), np)) => {
                        if n == 2 {
                            match parse_field(buf, a, b) {
                                Err(e) => {
                                    return Err(e);
                                },
                                Ok(fd) => {
                                    let ghost f0 = fields@;
                                    fields.push(fd);
                                    proof {
                                        assert(deep_fdescs(fields@) =~= deep_fdescs(f0).push(fd@));
                                    }
                                },
                            }
                        } else if n == 3 {
                            match parse_message(buf, a, b, &fqn, cur_msgs, cur_enums) {
                                Err(e) => {
                                    return Err(e);
                                },
                                Ok((m2, e2)) => {
                                    cur_msgs = m2;
                                    cur_enums = e2;
                                },
                            }
                        } else if n == 4 {
                            match parse_enum(buf, a, b, &fqn) {
                                Err(e) => {
                                    return Err(e);
                                },
                                Ok(ed) => {
                                    let ghost e0 = cur_enums@;
                                    cur_enums.push(ed);
                                    proof {
                                        assert(deep_edescs(cur_enums@) =~= deep_edescs(e0).push(ed@));
                                    }
                                },
                            }
                        } else if n == 7 {
                            match scan_bool(buf, a, b, 7) {
                                Err(e) => {
                                    return Err(e);
                                },
                                Ok(me) => {
                                    map_entry = me;
                                },
                            }
                        }
                        pos = np;
                    },
                },
                _ => match skip_payload(buf, p1, end, wt) {
                    Err(e) => {
                        return Err(e);
                    },
                    Ok(np) => {
                        pos = np;
                    },
                },
            },
        }
    }
    let md = MessageDescriptor { name: fqn, fields, map_entry };
    let ghost m_final = deep_mdescs(cur_msgs@);
    cur_msgs.push(md);
    proof {
        assert(md@.fields =~= deep_fdescs(md.fields@));
        assert(deep_mdescs(cur_msgs@) =~= m_final.push(md@));
    }
    Ok((cur_msgs, cur_enums))
}

/// One file declaration: its package qualifies every declaration in it.
fn parse_file(
    buf: &Vec<u8>,
    pos0: usize,
    end: usize,
    msgs: Vec<MessageDescriptor>,
    enums: Vec<EnumDescriptor>,
) -> (r: Result<(Vec<MessageDescriptor>, Vec<EnumDescriptor>), DecodeError>)
    requires
        pos0 <= end <= buf.len(),
    ensures
        match r {
            Ok(p) => sp_parse_file(
                buf@, pos0 as int, end as int, deep_mdescs(msgs@), deep_edescs(enums@),
            ) == Ok::<(Seq<SpecMessageDesc>, Seq<SpecEnumDesc>), DecodeError>(
                (deep_mdescs(p.0@), deep_edescs(p.1@)),
            ),
            Err(e) => sp_parse_file(
                buf@, pos0 as int, end as int, deep_mdescs(msgs@), deep_edescs(enums@),
            ) == Err::<(Seq<SpecMessageDesc>, Seq<SpecEnumDesc>), DecodeError>(e),
        },
    decreases end - pos0, 1int,
{
    let ghost gm0 = deep_mdescs(msgs@);
    let ghost ge0 = deep_edescs(enums@);
    let pkg = match scan_str(buf, pos0, end, 2) {
        Ok(pkg) => pkg,
        Err(e) => {
            return Err(e);
        },
    };
    let ghost gpkg = pkg@;
    let mut prefix: Vec<u8> = Vec::new();
    if pkg.len() > 0 {
        prefix.push(46);
        let mut tail = pkg;
        prefix.append(&mut tail);
        proof {
            assert(prefix@ =~= seq![46u8] + gpkg);
        }
    } else {
        proof {
            assert(prefix@ =~= gpkg);
        }
    }
    let ghost goal = sp_parse_file_body(buf@, pos0 as int, end as int, prefix@, gm0, ge0);
    let mut cur_msgs = msgs;
    let mut cur_enums = enums;
    let mut pos = pos0;
    while pos < end
        invariant
            pos0 <= pos <= end <= buf.len(),
            goal == sp_parse_file_body(buf@, pos0 as int, end as int, prefix@, gm0, ge0),
            sp_parse_file(buf@, pos0 as int, end as int, gm0, ge0) == goal,
            gm0 == deep_mdescs(msgs@),
            ge0 == deep_edescs(enums@),
            goal == sp_parse_file_body(
                buf@, pos as int, end as int, prefix@, deep_mdescs(cur_msgs@), deep_edescs(cur_enums@),
            ),
        decreases end - pos,
    {
        match read_tag(buf, pos, end) {
            Err(e) => {
                return Err(e);
            },
            Ok(((n, wt), p1)) => match wt {
                WireType::Len => match read_len_payload(buf, p1, end) {
                    Err(e) => {
                        return Err(e);
                    },
                    Ok(((a, b), np)) => {
                        if n == 4 {
                            match parse_message(buf, a, b, &prefix, cur_msgs, cur_enums) {
                                Err(e) => {
                                    return Err(e);
                                },
                                Ok((m2, e2)) => {
                                    cur_msgs = m2;
                                    cur_enums = e2;
                                },
                            }
                        } else if n == 5 {
                            match parse_enum(buf, a, b, &prefix) {
                                Err(e) => {
                                    return Err(e);
                                },
                                Ok(ed) => {
                                    let ghost e0 = cur_enums@;
                                    cur_enums.push(ed);
                                    proof {
                                        assert(deep_edescs(cur_enums@) =~= deep_edescs(e0).push(ed@));
                                    }
                                },
                            }
                        }
                        pos = np;
                    },
                },
                _ => match skip_payload(buf, p1, end, wt) {
                    Err(e) => {
                        return Err(e);
                    },
                    Ok(np) => {
                        pos = np;
                    },
                },
            },
        }
    }
    Ok((cur_msgs, cur_enums))
}

/// A whole descriptor set, file by file.
fn parse_set(buf: &Vec<u8>, pos0: usize, end: usize) -> (r: Result<(Vec<MessageDescriptor>, Vec<EnumDescriptor>), DecodeError>)
    requires
        pos0 <= end <= buf.len(),
    ensures
        match r {
            Ok(p) => sp_parse_set(buf@, pos0 as int, end as int, Seq::empty(), Seq::empty())
                == Ok::<(Seq<SpecMessageDesc>, Seq<SpecEnumDesc>), DecodeError>(
                (deep_mdescs(p.0@), deep_edescs(p.1@)),
            ),
            Err(e) => sp_parse_set(buf@, pos0 as int, end as int, Seq::empty(), Seq::empty())
                == Err::<(Seq<SpecMessageDesc>, Seq<SpecEnumDesc>), DecodeError>(e),
        },
{
    let mut msgs: Vec<MessageDescriptor> = Vec::new();
    let mut enums: Vec<EnumDescriptor> = Vec::new();
    let ghost goal = sp_parse_set(buf@, pos0 as int, end as int, Seq::empty(), Seq::empty());
    proof {
        assert(deep_mdescs(msgs@) =~= Seq::<SpecMessageDesc>::empty());
        assert(deep_edescs(enums@) =~= Seq::<SpecEnumDesc>::empty());
    }
    let mut pos = pos0;
    while pos < end
        invariant
            pos0 <= pos <= end <= buf.len(),
            goal == sp_parse_set(buf@, pos0 as int, end as int, Seq::empty(), Seq::empty()),
            goal == sp_parse_set(
                buf@, pos as int, end as int, deep_mdescs(msgs@), deep_edescs(enums@),
            ),
        decreases end - pos,
    {
        match read_tag(buf, pos, end) {
            Err(e) => {
                return Err(e);
            },
            Ok(((n, wt), p1)) => match wt {
                WireType::Len => match read_len_payload(buf, p1, end) {
                    Err(e) => {
                        return Err(e);
                    },
                    Ok(((a, b), np)) => {
                        if n == 1 {
                            match parse_file(buf, a, b, msgs, enums) {
                                Err(e) => {
                                    return Err(e);
                                },
                                Ok((m2, e2)) => {
                                    msgs = m2;
                                    enums = e2;
                                },
                            }
                        }
                        pos = np;
                    },
                },
                _ => match skip_payload(buf, p1, end, wt) {
                    Err(e) => {
                        return Err(e);
                    },
                    Ok(np) => {
                        pos = np;
                    },
                },
            },
        }
    }
    Ok((msgs, enums))
}

/// Parses a descriptor-set byte buffer into a registry of message and
/// enum descriptors keyed by fully-qualified name.
pub fn load_registry(buf: &Vec<u8>) -> (r: Result<DescriptorRegistry, DecodeError>)
    ensures
        match r {
            Ok(reg) => sp_load_registry(buf@) == Ok::<SpecRegistry, DecodeError>(reg@),
            Err(e) => sp_load_registry(buf@) == Err::<SpecRegistry, DecodeError>(e)
                && e == DecodeError::DescriptorParseError,
        },
{
    match parse_set(buf, 0, buf.len()) {
        Ok((msgs, enums)) => {
            let reg = DescriptorRegistry { messages: msgs, enums };
            proof {
                assert(reg@.messages =~= deep_mdescs(reg.messages@));
                assert(reg@.enums =~= deep_edescs(reg.enums@));
            }
            Ok(reg)
        },
        Err(_) => Err(DecodeError::DescriptorParseError),
    }
}

} // verus!
