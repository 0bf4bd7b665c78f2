use vstd::prelude::*;

verus! {

broadcast use vstd::std_specs::vec::axiom_vec_index_decreases, vstd::seq::axiom_seq_index_decreases;

use crate::DecodeError;
use crate::decode::{DecodeConfig, find_entry, sp_find_idx};
use crate::descriptor::{
    DescriptorRegistry, EnumDescriptor, FieldDescriptor, MessageDescriptor, SpecField,
    SpecMessageDesc, SpecRegistry, bytes_eq, find_field, sp_find_enum, sp_find_field, sp_find_msg,
};
use crate::value::{DecodedValue, FieldType, SpecValue, deep_entries, deep_list, lemma_deep_msg_eq};
use crate::wire::copy_range;

/// A JSON-shaped value, ready for text serialization by any JSON library.
/// Object keys and strings are UTF-8 bytes; floating-point numbers are
/// carried as their raw IEEE bits.
#[derive(Debug, PartialEq, Eq)]
pub enum JsonValue {
    Null,
    Bool(bool),
    I64(i64),
    U64(u64),
    F32Bits(u32),
    F64Bits(u64),
    Str(Vec<u8>),
    Arr(Vec<JsonValue>),
    Obj(Vec<(Vec<u8>, JsonValue)>),
}

/// Mathematical model of a JsonValue.
pub ghost enum SpecJson {
    Null,
    Bool(bool),
    I64(i64),
    U64(u64),
    F32Bits(u32),
    F64Bits(u64),
    Str(Seq<u8>),
    Arr(Seq<SpecJson>),
    Obj(Seq<(Seq<u8>, SpecJson)>),
}

impl JsonValue {
    pub open spec fn deep(self) -> SpecJson
        decreases self,
    {
        match self {
            JsonValue::Null => SpecJson::Null,
            JsonValue::Bool(b) => SpecJson::Bool(b),
            JsonValue::I64(x) => SpecJson::I64(x),
            JsonValue::U64(x) => SpecJson::U64(x),
            JsonValue::F32Bits(x) => SpecJson::F32Bits(x),
            JsonValue::F64Bits(x) => SpecJson::F64Bits(x),
            JsonValue::Str(s) => SpecJson::Str(s@),
            JsonValue::Arr(v) => SpecJson::Arr(
                Seq::new(
                    v.len() as nat,
                    |i: int| if 0 <= i < v.len() { v[i].deep() } else { SpecJson::Null },
                ),
            ),
            JsonValue::Obj(v) => SpecJson::Obj(
                Seq::new(
                    v.len() as nat,
                    |i: int|
                        if 0 <= i < v.len() {
                            (v[i].0@, v[i].1.deep())
                        } else {
                            (Seq::empty(), SpecJson::Null)
                        },
                ),
            ),
        }
    }
}

impl View for JsonValue {
    type V = SpecJson;

    open spec fn view(&self) -> SpecJson {
        self.deep()
    }
}

/// Models a sequence of JSON array elements.
pub open spec fn deep_arr(v: Seq<JsonValue>) -> Seq<SpecJson> {
    Seq::new(v.len(), |i: int| if 0 <= i < v.len() { v[i].deep() } else { SpecJson::Null })
}

/// Models a sequence of JSON object members.
pub open spec fn deep_obj(v: Seq<(Vec<u8>, JsonValue)>) -> Seq<(Seq<u8>, SpecJson)> {
    Seq::new(
        v.len(),
        |i: int| if 0 <= i < v.len() { (v[i].0@, v[i].1.deep()) } else { (Seq::empty(), SpecJson::Null) },
    )
}

pub proof fn lemma_deep_arr_eq(v: Vec<JsonValue>)
    ensures
        JsonValue::Arr(v).deep() == SpecJson::Arr(deep_arr(v@)),
{
    let s = JsonValue::Arr(v).deep()->Arr_0;
    assert(s =~= deep_arr(v@));
}

pub proof fn lemma_deep_obj_eq(v: Vec<(Vec<u8>, JsonValue)>)
    ensures
        JsonValue::Obj(v).deep() == SpecJson::Obj(deep_obj(v@)),
{
    let s = JsonValue::Obj(v).deep()->Obj_0;
    assert(s =~= deep_obj(v@));
}

/// Decimal digits of `n`, most significant first.
pub open spec fn sp_dec_u(n: nat) -> Seq<u8>
    decreases n,
{
    if n < 10 {
        seq![(48 + n) as u8]
    } else {
        sp_dec_u(n / 10).push((48 + n % 10) as u8)
    }
}

/// Decimal form of `x`, with a leading minus sign when negative.
pub open spec fn sp_dec_i(x: int) -> Seq<u8> {
    if x < 0 {
        seq![45u8] + sp_dec_u((-x) as nat)
    } else {
        sp_dec_u(x as nat)
    }
}

pub fn dec_u64(n: u64) -> (r: Vec<u8>)
    ensures
        r@ == sp_dec_u(n as nat),
    decreases n,
{
    if n < 10 {
        let mut out: Vec<u8> = Vec::new();
        out.push(48 + (n as u8));
        proof {
            assert(out@ =~= sp_dec_u(n as nat));
        }
        out
    } else {
        let mut out = dec_u64(n / 10);
        out.push(48 + ((n % 10) as u8));
        out
    }
}

pub fn dec_i64(x: i64) -> (r: Vec<u8>)
    ensures
        r@ == sp_dec_i(x as int),
{
    if x >= 0 {
        dec_u64(x as u64)
    } else {
        let m: u64 = if x == i64::MIN {
            9223372036854775808u64
        } else {
            (-x) as u64
        };
        let mut out: Vec<u8> = Vec::new();
        out.push(45);
        let mut digits = dec_u64(m);
        out.append(&mut digits);
        proof {
            assert(m as nat == (-(x as int)) as nat);
            assert(out@ =~= seq![45u8] + sp_dec_u(m as nat));
        }
        out
    }
}

/// The base64 alphabet character for a 6-bit value.
pub open spec fn sp_b64_digit(x: u8) -> u8 {
    if x < 26 {
        (65 + x) as u8
    } else if x < 52 {
        (97 + (x - 26)) as u8
    } else if x < 62 {
        (48 + (x - 52)) as u8
    } else if x == 62 {
        43
    } else {
        47
    }
}

/// Standard base64 encoding of `s[i..]`, with `=` padding.
pub open spec fn sp_b64(s: Seq<u8>, i: int) -> Seq<u8>
    decreases s.len() - i,
{
    if 0 <= i && i + 3 <= s.len() {
        seq![
            sp_b64_digit(s[i] >> 2),
            sp_b64_digit((s[i] & 3) << 4 | (s[i + 1] >> 4)),
            sp_b64_digit((s[i + 1] & 15) << 2 | (s[i + 2] >> 6)),
            sp_b64_digit(s[i + 2] & 63),
        ] + sp_b64(s, i + 3)
    } else if 0 <= i && i + 2 == s.len() {
        seq![
            sp_b64_digit(s[i] >> 2),
            sp_b64_digit((s[i] & 3) << 4 | (s[i + 1] >> 4)),
            sp_b64_digit((s[i + 1] & 15) << 2),
            61u8,
        ]
    } else if 0 <= i && i + 1 == s.len() {
        seq![sp_b64_digit(s[i] >> 2), sp_b64_digit((s[i] & 3) << 4), 61u8, 61u8]
    } else {
        Seq::empty()
    }
}

proof fn lemma_b64_bounds(b0: u8, b1: u8, b2: u8)
    ensures
        b0 >> 2 < 64,
        ((b0 & 3) << 4 | (b1 >> 4)) < 64,
        ((b1 & 15) << 2 | (b2 >> 6)) < 64,
        b2 & 63 < 64,
        (b0 & 3) << 4 < 64,
        (b1 & 15) << 2 < 64,
{
    assert(b0 >> 2 < 64 && ((b0 & 3) << 4 | (b1 >> 4)) < 64 && ((b1 & 15) << 2 | (b2 >> 6)) < 64
        && b2 & 63 < 64 && (b0 & 3) << 4 < 64 && (b1 & 15) << 2 < 64) by (bit_vector);
}

fn b64_digit(x: u8) -> (r: u8)
    requires
        x < 64,
    ensures
        r == sp_b64_digit(x),
{
    if x < 26 {
        65 + x
    } else if x < 52 {
        97 + (x - 26)
    } else if x < 62 {
        48 + (x - 52)
    } else if x == 62 {
        43
    } else {
        47
    }
}

/// Base64 encoding of a byte string.
pub fn b64_encode(bytes: &Vec<u8>) -> (r: Vec<u8>)
    ensures
        r@ == sp_b64(bytes@, 0),
{
    let n = bytes.len();
    let mut out: Vec<u8> = Vec::new();
    let mut i: usize = 0;
    while i < n && n - i >= 3
        invariant
            i <= n,
            n == bytes.len(),
            sp_b64(bytes@, 0) == out@ + sp_b64(bytes@, i as int),
        decreases n - i,
    {
        let b0 = bytes[i];
        let b1 = bytes[i + 1];
        let b2 = bytes[i + 2];
        proof {
            lemma_b64_bounds(b0, b1, b2);
        }
        let ghost out0 = out@;
        out.push(b64_digit(b0 >> 2));
        out.push(b64_digit((b0 & 3) << 4 | (b1 >> 4)));
        out.push(b64_digit((b1 & 15) << 2 | (b2 >> 6)));
        out.push(b64_digit(b2 & 63));
        i = i + 3;
        proof {
            assert(out@ =~= out0 + seq![
                sp_b64_digit(b0 >> 2),
                sp_b64_digit((b0 & 3) << 4 | (b1 >> 4)),
                sp_b64_digit((b1 & 15) << 2 | (b2 >> 6)),
                sp_b64_digit(b2 & 63),
            ]);
            assert(sp_b64(bytes@, 0) =~= out@ + sp_b64(bytes@, i as int));
        }
    }
    if n - i == 2 {
        let b0 = bytes[i];
        let b1 = bytes[i + 1];
        proof {
            lemma_b64_bounds(b0, b1, 0);
        }
        let ghost out0 = out@;
        out.push(b64_digit(b0 >> 2));
        out.push(b64_digit((b0 & 3) << 4 | (b1 >> 4)));
        out.push(b64_digit((b1 & 15) << 2));
        out.push(61);
        proof {
            assert(out@ =~= out0 + sp_b64(bytes@, i as int));
            assert(sp_b64(bytes@, 0) =~= out@);
        }
    } else if n - i == 1 {
        let b0 = bytes[i];
        proof {
            lemma_b64_bounds(b0, 0, 0);
        }
        let ghost out0 = out@;
        out.push(b64_digit(b0 >> 2));
        out.push(b64_digit((b0 & 3) << 4));
        out.push(61);
        out.push(61);
        proof {
            assert(out@ =~= out0 + sp_b64(bytes@, i as int));
            assert(sp_b64(bytes@, 0) =~= out@);
        }
    } else {
        proof {
            assert(sp_b64(bytes@, i as int) =~= Seq::<u8>::empty());
            assert(sp_b64(bytes@, 0) =~= out@);
        }
    }
    out
}

/// First name declared for enum number `n`, scanning from `i`.
pub open spec fn sp_enum_name(values: Seq<(i64, Seq<u8>)>, n: i64, i: int) -> Option<Seq<u8>>
    decreases values.len() - i,
{
    if 0 <= i < values.len() {
        if values[i].0 == n {
            Some(values[i].1)
        } else {
            sp_enum_name(values, n, i + 1)
        }
    } else {
        None
    }
}

/// The string form of a map key value.
pub open spec fn sp_key_string(v: SpecValue) -> Seq<u8> {
    match v {
        SpecValue::Int(x) => sp_dec_i(x as int),
        SpecValue::Uint(x) => sp_dec_u(x as nat),
        SpecValue::Bool(b) => if b {
            seq![116u8, 114u8, 117u8, 101u8]
        } else {
            seq![102u8, 97u8, 108u8, 115u8, 101u8]
        },
        SpecValue::Str(s) => s,
        _ => Seq::empty(),
    }
}

/// The string form of an absent map key, per the key's declared type.
pub open spec fn sp_default_key(t: crate::value::FieldType) -> Seq<u8> {
    match t {
        crate::value::FieldType::Str => Seq::empty(),
        crate::value::FieldType::Bool => seq![102u8, 97u8, 108u8, 115u8, 101u8],
        _ => seq![48u8],
    }
}

/// Index of the first object member with key `k`, or -1.
pub open spec fn sp_find_key(obj: Seq<(Seq<u8>, SpecJson)>, k: Seq<u8>, i: int) -> int
    decreases obj.len() - i,
{
    if 0 <= i < obj.len() {
        if obj[i].0 == k {
            i
        } else {
            sp_find_key(obj, k, i + 1)
        }
    } else {
        -1
    }
}

/// Last value wins for a duplicate key; first-seen key order is kept.
pub open spec fn sp_obj_put(obj: Seq<(Seq<u8>, SpecJson)>, k: Seq<u8>, v: SpecJson) -> Seq<(Seq<u8>, SpecJson)> {
    let i = sp_find_key(obj, k, 0);
    if i >= 0 {
        obj.update(i, (k, v))
    } else {
        obj.push((k, v))
    }
}

/// Whether `fd` is a map field: repeated, message-typed, and its entry
/// type is marked as a map entry.
pub open spec fn sp_is_map(reg: SpecRegistry, fd: SpecField) -> bool {
    fd.repeated && fd.ftype is Message && (match sp_find_msg(reg, fd.ref_name, 0) {
        Some(nd) => nd.map_entry,
        None => false,
    })
}

/// JSON projection of one decoded singular value under field `fd`.
pub open spec fn sp_project_value(reg: SpecRegistry, fd: SpecField, v: SpecValue, cfg: DecodeConfig) -> Result<SpecJson, DecodeError>
    decreases v, 0int,
{
    match v {
        SpecValue::Int(x) => if fd.ftype is Enum {
            if cfg.use_enum_numbers {
                Ok(SpecJson::I64(x))
            } else {
                match sp_find_enum(reg, fd.ref_name, 0) {
                    None => Err(DecodeError::UnknownType),
                    Some(ed) => match sp_enum_name(ed.values, x, 0) {
                        Some(nm) => Ok(SpecJson::Str(nm)),
                        None => Ok(SpecJson::I64(x)),
                    },
                }
            }
        } else if (fd.ftype is Int64 || fd.ftype is Sint64 || fd.ftype is Sfixed64)
            && cfg.int64_as_string {
            Ok(SpecJson::Str(sp_dec_i(x as int)))
        } else {
            Ok(SpecJson::I64(x))
        },
        SpecValue::Uint(x) => if (fd.ftype is Uint64 || fd.ftype is Fixed64)
            && cfg.int64_as_string {
            Ok(SpecJson::Str(sp_dec_u(x as nat)))
        } else {
            Ok(SpecJson::U64(x))
        },
        SpecValue::Bool(b) => Ok(SpecJson::Bool(b)),
        SpecValue::F32Bits(x) => Ok(SpecJson::F32Bits(x)),
        SpecValue::F64Bits(x) => Ok(SpecJson::F64Bits(x)),
        SpecValue::Str(s) => Ok(SpecJson::Str(s)),
        SpecValue::Bytes(b) => Ok(SpecJson::Str(sp_b64(b, 0))),
        SpecValue::Msg(sub) => match sp_find_msg(reg, fd.ref_name, 0) {
            None => Err(DecodeError::UnknownType),
            Some(nd) => match sp_project_fields(reg, nd.fields, 0, sub, cfg) {
                Ok(pairs) => Ok(SpecJson::Obj(pairs)),
                Err(e) => Err(e),
            },
        },
        SpecValue::List(_) => Ok(SpecJson::Null),
        SpecValue::Unknown(_, _) => Ok(SpecJson::Null),
    }
}

/// JSON array elements for a repeated field's accumulated list.
pub open spec fn sp_project_list(reg: SpecRegistry, fd: SpecField, items: Seq<SpecValue>, i: int, cfg: DecodeConfig) -> Result<Seq<SpecJson>, DecodeError>
    decreases items, items.len() - i,
{
    if 0 <= i < items.len() {
        match sp_project_value(reg, fd, items[i], cfg) {
            Err(e) => Err(e),
            Ok(jv) => match sp_project_list(reg, fd, items, i + 1, cfg) {
                Err(e) => Err(e),
                Ok(rest) => Ok(seq![jv] + rest),
            },
        }
    } else {
        Ok(Seq::empty())
    }
}

/// JSON object members for a map field: one member per distinct key, last
/// value winning, first-seen key order kept. `nd` is the map entry type;
/// its field 1 is the key, its field 2 the value.
pub open spec fn sp_project_map(reg: SpecRegistry, nd: SpecMessageDesc, items: Seq<SpecValue>, i: int, obj: Seq<(Seq<u8>, SpecJson)>, cfg: DecodeConfig) -> Result<Seq<(Seq<u8>, SpecJson)>, DecodeError>
    decreases items, items.len() - i,
{
    if 0 <= i < items.len() {
        match items[i] {
            SpecValue::Msg(ef) => {
                let k = match sp_find_field(nd, 1, 0) {
                    Some(kfd) => {
                        let ki = sp_find_idx(ef, 1, 0);
                        if 0 <= ki < ef.len() {
                            sp_key_string(ef[ki].1)
                        } else {
                            sp_default_key(kfd.ftype)
                        }
                    },
                    None => Seq::empty(),
                };
                let vres = match sp_find_field(nd, 2, 0) {
                    Some(vfd) => {
                        let vi = sp_find_idx(ef, 2, 0);
                        if 0 <= vi < ef.len() {
                            sp_project_value(reg, vfd, ef[vi].1, cfg)
                        } else {
                            Ok(SpecJson::Null)
                        }
                    },
                    None => Ok(SpecJson::Null),
                };
                match vres {
                    Err(e) => Err(e),
                    Ok(jv) => sp_project_map(reg, nd, items, i + 1, sp_obj_put(obj, k, jv), cfg),
                }
            },
            _ => sp_project_map(reg, nd, items, i + 1, obj, cfg),
        }
    } else {
        Ok(obj)
    }
}

/// JSON projection of one field of a message: absent singular fields
/// become null, absent repeated fields an empty array, absent map fields
/// an empty object.
pub open spec fn sp_project_field_value(reg: SpecRegistry, fd: SpecField, entries: Seq<(u64, SpecValue)>, cfg: DecodeConfig) -> Result<SpecJson, DecodeError>
    decreases entries, 0int,
{
    let idx = sp_find_idx(entries, fd.number, 0);
    if sp_is_map(reg, fd) {
        match sp_find_msg(reg, fd.ref_name, 0) {
            None => Ok(SpecJson::Obj(Seq::empty())),
            Some(nd) => if 0 <= idx < entries.len() {
                match entries[idx].1 {
                    SpecValue::List(items) => match sp_project_map(reg, nd, items, 0, Seq::empty(), cfg) {
                        Ok(pairs) => Ok(SpecJson::Obj(pairs)),
                        Err(e) => Err(e),
                    },
                    _ => Ok(SpecJson::Obj(Seq::empty())),
                }
            } else {
                Ok(SpecJson::Obj(Seq::empty()))
            },
        }
    } else if fd.repeated {
        if 0 <= idx < entries.len() {
            match entries[idx].1 {
                SpecValue::List(items) => match sp_project_list(reg, fd, items, 0, cfg) {
                    Ok(elems) => Ok(SpecJson::Arr(elems)),
                    Err(e) => Err(e),
                },
                _ => Ok(SpecJson::Arr(Seq::empty())),
            }
        } else {
            Ok(SpecJson::Arr(Seq::empty()))
        }
    } else {
        if 0 <= idx < entries.len() {
            sp_project_value(reg, fd, entries[idx].1, cfg)
        } else {
            Ok(SpecJson::Null)
        }
    }
}

/// JSON object members of a message, one per descriptor field, in
/// declaration order.
pub open spec fn sp_project_fields(reg: SpecRegistry, fields: Seq<SpecField>, i: int, entries: Seq<(u64, SpecValue)>, cfg: DecodeConfig) -> Result<Seq<(Seq<u8>, SpecJson)>, DecodeError>
    decreases entries, fields.len() - i,
{
    if 0 <= i < fields.len() {
        match sp_project_field_value(reg, fields[i], entries, cfg) {
            Err(e) => Err(e),
            Ok(jv) => match sp_project_fields(reg, fields, i + 1, entries, cfg) {
                Err(e) => Err(e),
                Ok(rest) => Ok(seq![(fields[i].name, jv)] + rest),
            },
        }
    } else {
        Ok(Seq::empty())
    }
}

/// The JSON object for a whole decoded message.
pub open spec fn sp_project_msg(reg: SpecRegistry, desc: SpecMessageDesc, entries: Seq<(u64, SpecValue)>, cfg: DecodeConfig) -> Result<SpecJson, DecodeError> {
    match sp_project_fields(reg, desc.fields, 0, entries, cfg) {
        Ok(pairs) => Ok(SpecJson::Obj(pairs)),
        Err(e) => Err(e),
    }
}

/// Copies a byte string.
fn copy_bytes(src: &Vec<u8>) -> (r: Vec<u8>)
    ensures
        r@ == src@,
{
    let r = copy_range(src, 0, src.len());
    proof {
        assert(src@.subrange(0, src.len() as int) =~= src@);
    }
    r
}

/// The string form of a map key value.
fn key_string(v: &DecodedValue) -> (r: Vec<u8>)
    ensures
        r@ == sp_key_string(v@),
{
    match v {
        DecodedValue::Int(x) => dec_i64(*x),
        DecodedValue::Uint(x) => dec_u64(*x),
        DecodedValue::Bool(b) => {
            let mut out: Vec<u8> = Vec::new();
            if *b {
                out.push(116);
                out.push(114);
                out.push(117);
                out.push(101);
                proof {
                    assert(out@ =~= seq![116u8, 114u8, 117u8, 101u8]);
                }
            } else {
                out.push(102);
                out.push(97);
                out.push(108);
                out.push(115);
                out.push(101);
                proof {
                    assert(out@ =~= seq![102u8, 97u8, 108u8, 115u8, 101u8]);
                }
            }
            out
        },
        DecodedValue::Str(s) => copy_bytes(s),
        _ => {
            let out: Vec<u8> = Vec::new();
            proof {
                assert(out@ =~= Seq::<u8>::empty());
            }
            out
        },
    }
}

/// The string form of an absent map key, per the key's declared type.
fn default_key(t: FieldType) -> (r: Vec<u8>)
    ensures
        r@ == sp_default_key(t),
{
    let mut out: Vec<u8> = Vec::new();
    match t {
        FieldType::Str => {
            proof {
                assert(out@ =~= Seq::<u8>::empty());
            }
        },
        FieldType::Bool => {
            out.push(102);
            out.push(97);
            out.push(108);
            out.push(115);
            out.push(101);
            proof {
                assert(out@ =~= seq![102u8, 97u8, 108u8, 115u8, 101u8]);
            }
        },
        _ => {
            out.push(48);
            proof {
                assert(out@ =~= seq![48u8]);
            }
        },
    }
    out
}

/// Name of enum number `n` in `ed`, first declaration winning.
fn enum_name(ed: &EnumDescriptor, n: i64) -> (r: Option<Vec<u8>>)
    ensures
        match r {
            Some(s) => sp_enum_name(ed@.values, n, 0) == Some(s@),
            None => sp_enum_name(ed@.values, n, 0) is None,
        },
{
    let m = ed.values.len();
    let mut i: usize = 0;
    while i < m
        invariant
            i <= m,
            m == ed.values.len(),
            sp_enum_name(ed@.values, n, 0) == sp_enum_name(ed@.values, n, i as int),
        decreases m - i,
    {
        proof {
            assert(ed@.values[i as int] == (ed.values@[i as int].0, ed.values@[i as int].1@));
        }
        if ed.values[i].0 == n {
            return Some(copy_bytes(&ed.values[i].1));
        }
        i = i + 1;
    }
    None
}

/// Puts a member into an object under construction: replaces the value of
/// an existing key in place, else appends.
fn obj_put(obj: &mut Vec<(Vec<u8>, JsonValue)>, k: Vec<u8>, v: JsonValue)
    ensures
        deep_obj(final(obj)@) == sp_obj_put(deep_obj(old(obj)@), k@, v@),
{
    let ghost de0 = deep_obj(obj@);
    let n = obj.len();
    let mut i: usize = 0;
    while i < n
        invariant
            i <= n,
            n == obj.len(),
            obj@ == old(obj)@,
            de0 == deep_obj(obj@),
            sp_find_key(deep_obj(obj@), k@, 0) == sp_find_key(deep_obj(obj@), k@, i as int),
        decreases n - i,
    {
        proof {
            assert(deep_obj(obj@)[i as int].0 == obj@[i as int].0@);
        }
        if bytes_eq(&obj[i].0, &k) {
            let ghost before = obj@;
            let _old_member = obj.remove(i);
            obj.insert(i, (k, v));
            proof {
                assert(obj@ =~= before.update(i as int, (k, v)));
                let lhs = deep_obj(obj@);
                let rhs = de0.update(i as int, (k@, v@));
                assert forall|j: int| 0 <= j < lhs.len() implies lhs[j] == rhs[j] by {
                    if j != i {
                        assert(obj@[j] == before[j]);
                    } else {
                        assert(obj@[j] == (k, v));
                    }
                }
                assert(lhs =~= rhs);
            }
            return;
        }
        i = i + 1;
    }
    obj.push((k, v));
    proof {
        assert(deep_obj(obj@) =~= de0.push((k@, v@)));
    }
}

/// Whether `fd` is a map field.
fn is_map(reg: &DescriptorRegistry, fd: &FieldDescriptor) -> (r: bool)
    ensures
        r == sp_is_map(reg@, fd@),
{
    if fd.repeated && fd.ftype == FieldType::Message {
        match reg.lookup_message(&fd.ref_name) {
            Some(mi) => reg.messages[mi].map_entry,
            None => false,
        }
    } else {
        false
    }
}

/// JSON projection of one decoded singular value under field `fd`.
pub fn project_value(reg: &DescriptorRegistry, fd: &FieldDescriptor, v: &DecodedValue, cfg: DecodeConfig) -> (r: Result<JsonValue, DecodeError>)
    ensures
        match r {
            Ok(j) => sp_project_value(reg@, fd@, v@, cfg) == Ok::<SpecJson, DecodeError>(j@),
            Err(e) => sp_project_value(reg@, fd@, v@, cfg) == Err::<SpecJson, DecodeError>(e),
        },
    decreases *v, 0int,
{
    match v {
        DecodedValue::Int(x) => {
            if fd.ftype == FieldType::Enum {
                if cfg.use_enum_numbers {
                    Ok(JsonValue::I64(*x))
                } else {
                    match reg.lookup_enum(&fd.ref_name) {
                        None => Err(DecodeError::UnknownType),
                        Some(ei) => match enum_name(&reg.enums[ei], *x) {
                            Some(nm) => Ok(JsonValue::Str(nm)),
                            None => Ok(JsonValue::I64(*x)),
                        },
                    }
                }
            } else if (fd.ftype == FieldType::Int64 || fd.ftype == FieldType::Sint64
                || fd.ftype == FieldType::Sfixed64) && cfg.int64_as_string {
                Ok(JsonValue::Str(dec_i64(*x)))
            } else {
                Ok(JsonValue::I64(*x))
            }
        },
        DecodedValue::Uint(x) => {
            if (fd.ftype == FieldType::Uint64 || fd.ftype == FieldType::Fixed64)
                && cfg.int64_as_string {
                Ok(JsonValue::Str(dec_u64(*x)))
            } else {
                Ok(JsonValue::U64(*x))
            }
        },
        DecodedValue::Bool(b) => Ok(JsonValue::Bool(*b)),
        DecodedValue::F32Bits(x) => Ok(JsonValue::F32Bits(*x)),
        DecodedValue::F64Bits(x) => Ok(JsonValue::F64Bits(*x)),
        DecodedValue::Str(s) => Ok(JsonValue::Str(copy_bytes(s))),
        DecodedValue::Bytes(b) => Ok(JsonValue::Str(b64_encode(b))),
        DecodedValue::Msg(sub) => match reg.lookup_message(&fd.ref_name) {
            None => Err(DecodeError::UnknownType),
            Some(mi) => match project_fields(reg, &reg.messages[mi], sub, cfg) {
                Ok(pairs) => {
                    proof {
                        lemma_deep_obj_eq(pairs);
                        lemma_deep_msg_eq(*sub);
                    }
                    Ok(JsonValue::Obj(pairs))
                },
                Err(e) => {
                    proof {
                        lemma_deep_msg_eq(*sub);
                    }
                    Err(e)
                },
            },
        },
        DecodedValue::List(_) => Ok(JsonValue::Null),
        DecodedValue::Unknown(_, _) => Ok(JsonValue::Null),
    }
}

/// JSON array elements for a repeated field's accumulated list.
pub fn project_list(reg: &DescriptorRegistry, fd: &FieldDescriptor, items: &Vec<DecodedValue>, cfg: DecodeConfig) -> (r: Result<Vec<JsonValue>, DecodeError>)
    ensures
        match r {
            Ok(out) => sp_project_list(reg@, fd@, deep_list(items@), 0, cfg)
                == Ok::<Seq<SpecJson>, DecodeError>(deep_arr(out@)),
            Err(e) => sp_project_list(reg@, fd@, deep_list(items@), 0, cfg)
                == Err::<Seq<SpecJson>, DecodeError>(e),
        },
    decreases *items, 0int,
{
    let ghost dl = deep_list(items@);
    let n = items.len();
    let mut out: Vec<JsonValue> = Vec::new();
    let mut i: usize = 0;
    while i < n
        invariant
            i <= n,
            n == items.len(),
            dl == deep_list(items@),
            sp_project_list(reg@, fd@, dl, 0, cfg) == (match sp_project_list(reg@, fd@, dl, i as int, cfg) {
                Ok(rest) => Ok::<Seq<SpecJson>, DecodeError>(deep_arr(out@) + rest),
                Err(e) => Err::<Seq<SpecJson>, DecodeError>(e),
            }),
        decreases n - i,
    {
        match project_value(reg, fd, &items[i], cfg) {
            Err(e) => {
                return Err(e);
            },
            Ok(jv) => {
                let ghost out0 = out@;
                out.push(jv);
                i = i + 1;
                proof {
                    assert(deep_arr(out@) =~= deep_arr(out0).push(jv@));
                    match sp_project_list(reg@, fd@, dl, i as int, cfg) {
                        Ok(rest) => {
                            assert(deep_arr(out@) + rest =~= deep_arr(out0) + (seq![jv@] + rest));
                        },
                        Err(_) => {},
                    }
                }
            },
        }
    }
    proof {
        assert(deep_arr(out@) + Seq::<SpecJson>::empty() =~= deep_arr(out@));
    }
    Ok(out)
}

/// JSON object members for a map field, last value per key winning.
pub fn project_map(reg: &DescriptorRegistry, nd: &MessageDescriptor, items: &Vec<DecodedValue>, cfg: DecodeConfig) -> (r: Result<Vec<(Vec<u8>, JsonValue)>, DecodeError>)
    ensures
        match r {
            Ok(out) => sp_project_map(reg@, nd@, deep_list(items@), 0, Seq::empty(), cfg)
                == Ok::<Seq<(Seq<u8>, SpecJson)>, DecodeError>(deep_obj(out@)),
            Err(e) => sp_project_map(reg@, nd@, deep_list(items@), 0, Seq::empty(), cfg)
                == Err::<Seq<(Seq<u8>, SpecJson)>, DecodeError>(e),
        },
    decreases *items, 0int,
{
    let ghost dl = deep_list(items@);
    let n = items.len();
    let mut out: Vec<(Vec<u8>, JsonValue)> = Vec::new();
    let mut i: usize = 0;
    proof {
        assert(deep_obj(out@) =~= Seq::<(Seq<u8>, SpecJson)>::empty());
    }
    while i < n
        invariant
            i <= n,
            n == items.len(),
            dl == deep_list(items@),
            sp_project_map(reg@, nd@, dl, 0, Seq::empty(), cfg)
                == sp_project_map(reg@, nd@, dl, i as int, deep_obj(out@), cfg),
        decreases n - i,
    {
        match &items[i] {
            DecodedValue::Msg(ef) => {
                proof {
                    lemma_deep_msg_eq(*ef);
                }
                let k: Vec<u8> = match find_field(nd, 1) {
                    Some(kfi) => match find_entry(ef, 1) {
                        Some(ki) => key_string(&ef[ki].1),
                        None => default_key(nd.fields[kfi].ftype),
                    },
                    None => Vec::new(),
                };
                let vres = match find_field(nd, 2) {
                    Some(vfi) => match find_entry(ef, 2) {
                        Some(vi) => project_value(reg, &nd.fields[vfi], &ef[vi].1, cfg),
                        None => Ok(JsonValue::Null),
                    },
                    None => Ok(JsonValue::Null),
                };
                match vres {
                    Err(e) => {
                        return Err(e);
                    },
                    Ok(jv) => {
                        obj_put(&mut out, k, jv);
                        i = i + 1;
                    },
                }
            },
            _ => {
                i = i + 1;
            },
        }
    }
    Ok(out)
}

/// JSON object members of a message, one per descriptor field, in
/// declaration order.
pub fn project_fields(reg: &DescriptorRegistry, desc: &MessageDescriptor, entries: &Vec<(u64, DecodedValue)>, cfg: DecodeConfig) -> (r: Result<Vec<(Vec<u8>, JsonValue)>, DecodeError>)
    ensures
        match r {
            Ok(out) => sp_project_fields(reg@, desc@.fields, 0, deep_entries(entries@), cfg)
                == Ok::<Seq<(Seq<u8>, SpecJson)>, DecodeError>(deep_obj(out@)),
            Err(e) => sp_project_fields(reg@, desc@.fields, 0, deep_entries(entries@), cfg)
                == Err::<Seq<(Seq<u8>, SpecJson)>, DecodeError>(e),
        },
    decreases *entries, desc.fields.len() + 1,
{
    let ghost gfields = desc@.fields;
    let ghost de = deep_entries(entries@);
    let n = desc.fields.len();
    let mut out: Vec<(Vec<u8>, JsonValue)> = Vec::new();
    let mut i: usize = 0;
    while i < n
        invariant
            i <= n,
            n == desc.fields.len(),
            gfields == desc@.fields,
            de == deep_entries(entries@),
            sp_project_fields(reg@, gfields, 0, de, cfg) == (match sp_project_fields(reg@, gfields, i as int, de, cfg) {
                Ok(rest) => Ok::<Seq<(Seq<u8>, SpecJson)>, DecodeError>(deep_obj(out@) + rest),
                Err(e) => Err::<Seq<(Seq<u8>, SpecJson)>, DecodeError>(e),
            }),
        decreases n - i,
    {
        match project_field_value(reg, &desc.fields[i], entries, cfg) {
            Err(e) => {
                return Err(e);
            },
            Ok(jv) => {
                let name = copy_bytes(&desc.fields[i].name);
                let ghost out0 = out@;
                out.push((name, jv));
                i = i + 1;
                proof {
                    assert(deep_obj(out@) =~= deep_obj(out0).push((gfields[i - 1].name, jv@)));
                    match sp_project_fields(reg@, gfields, i as int, de, cfg) {
                        Ok(rest) => {
                            assert(deep_obj(out@) + rest =~= deep_obj(out0) + (seq![
                                (gfields[i - 1].name, jv@),
                            ] + rest));
                        },
                        Err(_) => {},
                    }
                }
            },
        }
    }
    proof {
        assert(deep_obj(out@) + Seq::<(Seq<u8>, SpecJson)>::empty() =~= deep_obj(out@));
    }
    Ok(out)
}

/// JSON projection of one field of a message.
pub fn project_field_value(reg: &DescriptorRegistry, fd: &FieldDescriptor, entries: &Vec<(u64, DecodedValue)>, cfg: DecodeConfig) -> (r: Result<JsonValue, DecodeError>)
    ensures
        match r {
            Ok(j) => sp_project_field_value(reg@, fd@, deep_entries(entries@), cfg)
                == Ok::<SpecJson, DecodeError>(j@),
            Err(e) => sp_project_field_value(reg@, fd@, deep_entries(entries@), cfg)
                == Err::<SpecJson, DecodeError>(e),
        },
    decreases *entries, 0int,
{
    let mapped = is_map(reg, fd);
    if mapped {
        match reg.lookup_message(&fd.ref_name) {
            None => Ok(JsonValue::Obj(Vec::new())),
            Some(mi) => match find_entry(entries, fd.number) {
                None => {
                    let empty: Vec<(Vec<u8>, JsonValue)> = Vec::new();
                    proof {
                        lemma_deep_obj_eq(empty);
                        assert(deep_obj(empty@) =~= Seq::<(Seq<u8>, SpecJson)>::empty());
                    }
                    Ok(JsonValue::Obj(empty))
                },
                Some(ei) => match &entries[ei].1 {
                    DecodedValue::List(items) => {
                        proof {
                            crate::value::lemma_deep_list_eq(*items);
                        }
                        match project_map(reg, &reg.messages[mi], items, cfg) {
                            Ok(pairs) => {
                                proof {
                                    lemma_deep_obj_eq(pairs);
                                }
                                Ok(JsonValue::Obj(pairs))
                            },
                            Err(e) => Err(e),
                        }
                    },
                    _ => {
                        let empty: Vec<(Vec<u8>, JsonValue)> = Vec::new();
                        proof {
                            lemma_deep_obj_eq(empty);
                            assert(deep_obj(empty@) =~= Seq::<(Seq<u8>, SpecJson)>::empty());
                        }
                        Ok(JsonValue::Obj(empty))
                    },
                },
            },
        }
    } else if fd.repeated {
        match find_entry(entries, fd.number) {
            None => {
                let empty: Vec<JsonValue> = Vec::new();
                proof {
                    lemma_deep_arr_eq(empty);
                    assert(deep_arr(empty@) =~= Seq::<SpecJson>::empty());
                }
                Ok(JsonValue::Arr(empty))
            },
            Some(ei) => match &entries[ei].1 {
                DecodedValue::List(items) => {
                    proof {
                        crate::value::lemma_deep_list_eq(*items);
                    }
                    match project_list(reg, fd, items, cfg) {
                        Ok(elems) => {
                            proof {
                                lemma_deep_arr_eq(elems);
                            }
                            Ok(JsonValue::Arr(elems))
                        },
                        Err(e) => Err(e),
                    }
                },
                _ => {
                    let empty: Vec<JsonValue> = Vec::new();
                    proof {
                        lemma_deep_arr_eq(empty);
                        assert(deep_arr(empty@) =~= Seq::<SpecJson>::empty());
                    }
                    Ok(JsonValue::Arr(empty))
                },
            },
        }
    } else {
        match find_entry(entries, fd.number) {
            None => Ok(JsonValue::Null),
            Some(ei) => project_value(reg, fd, &entries[ei].1, cfg),
        }
    }
}

/// The JSON object for a whole decoded message.
pub fn project_msg(reg: &DescriptorRegistry, desc: &MessageDescriptor, entries: &Vec<(u64, DecodedValue)>, cfg: DecodeConfig) -> (r: Result<JsonValue, DecodeError>)
    ensures
        match r {
            Ok(j) => sp_project_msg(reg@, desc@, deep_entries(entries@), cfg)
                == Ok::<SpecJson, DecodeError>(j@),
            Err(e) => sp_project_msg(reg@, desc@, deep_entries(entries@), cfg)
                == Err::<SpecJson, DecodeError>(e),
        },
{
    match project_fields(reg, desc, entries, cfg) {
        Ok(pairs) => {
            proof {
                lemma_deep_obj_eq(pairs);
            }
            Ok(JsonValue::Obj(pairs))
        },
        Err(e) => Err(e),
    }
}

} // verus!
