use vstd::prelude::*;

verus! {

use crate::DecodeError;
use crate::decode::{DecodeConfig, sp_append_all, sp_decode_fields, sp_expected_wire, sp_find_idx, sp_unpack};
use crate::descriptor::{SpecField, SpecMessageDesc, SpecRegistry, sp_find_field, sp_find_msg};
use crate::json::{SpecJson, sp_is_map, sp_project_field_value, sp_project_fields};
use crate::sp_to_json;
use crate::value::SpecValue;
use crate::wire::{sp_len_payload, sp_skip, sp_tag, sp_varint};

/// A successful decode returns a JSON object whose keys are exactly the
/// descriptor's field names, in declaration order, one per field.
pub proof fn lemma_projection_shape(reg: SpecRegistry, fields: Seq<SpecField>, i: int, entries: Seq<(u64, SpecValue)>, cfg: DecodeConfig)
    requires
        0 <= i <= fields.len(),
    ensures
        match sp_project_fields(reg, fields, i, entries, cfg) {
            Ok(pairs) => pairs.len() == fields.len() - i && (forall|j: int|
                0 <= j < pairs.len() ==> pairs[j].0 == fields[i + j].name),
            Err(_) => true,
        },
    decreases fields.len() - i,
{
    if i < fields.len() {
        lemma_projection_shape(reg, fields, i + 1, entries, cfg);
    }
}

/// Whenever decoding succeeds, the resulting value is an object with one
/// member per descriptor field, named and ordered as the descriptor
/// declares them; on any other outcome the call returned one of the
/// error kinds, and no partial value.
pub proof fn lemma_decode_shape(reg: SpecRegistry, name: Seq<u8>, input: Seq<u8>, depth: nat, cfg: DecodeConfig, j: SpecJson)
    requires
        sp_to_json(reg, name, input, depth, cfg) == Ok::<SpecJson, DecodeError>(j),
    ensures
        match sp_find_msg(reg, name, 0) {
            Some(desc) => match j {
                SpecJson::Obj(pairs) => pairs.len() == desc.fields.len() && (forall|k: int|
                    0 <= k < pairs.len() ==> pairs[k].0 == desc.fields[k].name),
                _ => false,
            },
            None => false,
        },
{
    let desc = sp_find_msg(reg, name, 0)->Some_0;
    let entries = sp_decode_fields(reg, input, 0, input.len() as int, desc, depth, cfg, Seq::empty())->Ok_0;
    lemma_projection_shape(reg, desc.fields, 0, entries, cfg);
}

/// A field number that never occurred on the wire projects to JSON null
/// when singular, to an empty array when repeated, and to an empty
/// object when it is a map field.
pub proof fn lemma_absent_field_projection(reg: SpecRegistry, fd: SpecField, entries: Seq<(u64, SpecValue)>, cfg: DecodeConfig)
    requires
        sp_find_idx(entries, fd.number, 0) == -1,
    ensures
        sp_is_map(reg, fd) ==> sp_project_field_value(reg, fd, entries, cfg)
            == Ok::<SpecJson, DecodeError>(SpecJson::Obj(Seq::empty())),
        !sp_is_map(reg, fd) && fd.repeated ==> sp_project_field_value(reg, fd, entries, cfg)
            == Ok::<SpecJson, DecodeError>(SpecJson::Arr(Seq::empty())),
        !fd.repeated ==> sp_project_field_value(reg, fd, entries, cfg)
            == Ok::<SpecJson, DecodeError>(SpecJson::Null),
{
}

/// Decoding is a pure function of the registry, the type name, the input
/// bytes and the configuration: two decode calls on the same immutable
/// inputs return the same value, so repeated decoding is idempotent.
pub proof fn lemma_decode_deterministic(
    reg: SpecRegistry,
    name: Seq<u8>,
    input: Seq<u8>,
    depth: nat,
    cfg: DecodeConfig,
    r1: Result<SpecJson, DecodeError>,
    r2: Result<SpecJson, DecodeError>,
)
    requires
        r1 == sp_to_json(reg, name, input, depth, cfg),
        r2 == sp_to_json(reg, name, input, depth, cfg),
    ensures
        r1 == r2,
{
}

/// A varint value does not depend on where the readable span ends, as
/// long as the span still covers the whole varint.
pub proof fn lemma_varint_stable(s: Seq<u8>, pos: int, end: int, cut: int, budget: nat)
    requires
        sp_varint(s, pos, end, budget) is Ok,
        sp_varint(s, pos, end, budget)->Ok_0.1 <= cut <= end,
    ensures
        sp_varint(s, pos, cut, budget) == sp_varint(s, pos, end, budget),
    decreases budget,
{
    if pos < end && 0 <= pos < s.len() && s[pos] >= 128 && budget > 1 {
        lemma_varint_stable(s, pos + 1, end, cut, (budget - 1) as nat);
    }
}

/// Cutting a buffer strictly inside a varint always yields the
/// truncated-input error: no prefix of an unfinished varint decodes.
pub proof fn lemma_varint_truncation(s: Seq<u8>, pos: int, end: int, cut: int, budget: nat)
    requires
        sp_varint(s, pos, end, budget) is Ok,
        pos <= cut < sp_varint(s, pos, end, budget)->Ok_0.1,
    ensures
        sp_varint(s, pos, cut, budget) == Err::<(u64, int), DecodeError>(DecodeError::TruncatedInput),
    decreases budget,
{
    if pos < cut {
        lemma_varint_truncation(s, pos + 1, end, cut, (budget - 1) as nat);
    }
}

/// Cutting a buffer strictly inside a length-delimited span always
/// yields the truncated-input error: the declared length no longer fits.
pub proof fn lemma_len_payload_truncation(s: Seq<u8>, pos: int, end: int, cut: int)
    requires
        sp_len_payload(s, pos, end) is Ok,
        pos <= cut < sp_len_payload(s, pos, end)->Ok_0.1,
    ensures
        sp_len_payload(s, pos, cut) == Err::<((int, int), int), DecodeError>(DecodeError::TruncatedInput),
{
    let a = sp_varint(s, pos, end, 10)->Ok_0.1;
    if cut < a {
        lemma_varint_truncation(s, pos, end, cut, 10);
    } else {
        lemma_varint_stable(s, pos, end, cut, 10);
    }
}

/// The reference wire encoding of a varint value: seven bits per byte,
/// low group first, the high bit set on every byte but the last.
pub open spec fn sp_enc_varint(v: u64) -> Seq<u8>
    decreases v,
{
    if v < 128 {
        seq![v as u8]
    } else {
        seq![((v % 128) + 128) as u8] + sp_enc_varint(v / 128)
    }
}

/// A 64-bit value encodes in one to ten bytes.
pub proof fn lemma_enc_varint_len(v: u64)
    ensures
        1 <= sp_enc_varint(v).len() <= 10,
{
    assert(v / 128 / 128 / 128 / 128 / 128 / 128 / 128 / 128 / 128 < 128) by (bit_vector);
    let v1 = v / 128;
    let v2 = v1 / 128;
    let v3 = v2 / 128;
    let v4 = v3 / 128;
    let v5 = v4 / 128;
    let v6 = v5 / 128;
    let v7 = v6 / 128;
    let v8 = v7 / 128;
    let v9 = v8 / 128;
    assert(sp_enc_varint(v9).len() <= 1);
    assert(sp_enc_varint(v8).len() <= 2);
    assert(sp_enc_varint(v7).len() <= 3);
    assert(sp_enc_varint(v6).len() <= 4);
    assert(sp_enc_varint(v5).len() <= 5);
    assert(sp_enc_varint(v4).len() <= 6);
    assert(sp_enc_varint(v3).len() <= 7);
    assert(sp_enc_varint(v2).len() <= 8);
    assert(sp_enc_varint(v1).len() <= 9);
    assert(sp_enc_varint(v).len() <= 10);
}

proof fn lemma_varint_round_trip_budget(s: Seq<u8>, pos: int, end: int, v: u64, budget: nat)
    requires
        0 <= pos,
        end <= s.len(),
        pos + sp_enc_varint(v).len() <= end,
        s.subrange(pos, pos + sp_enc_varint(v).len() as int) == sp_enc_varint(v),
        sp_enc_varint(v).len() <= budget,
    ensures
        sp_varint(s, pos, end, budget) == Ok::<(u64, int), DecodeError>(
            (v, pos + sp_enc_varint(v).len()),
        ),
    decreases v,
{
    let enc = sp_enc_varint(v);
    assert(s[pos] == enc[0]);
    if v < 128 {
    } else {
        let w = v / 128;
        let enc2 = sp_enc_varint(w);
        assert(s.subrange(pos + 1, pos + 1 + enc2.len() as int) =~= enc2) by {
            assert forall|j: int| 0 <= j < enc2.len() implies s.subrange(
                pos + 1,
                pos + 1 + enc2.len() as int,
            )[j] == enc2[j] by {
                assert(s.subrange(pos, pos + enc.len() as int)[j + 1] == enc[j + 1]);
            }
        }
        lemma_varint_round_trip_budget(s, pos + 1, end, w, (budget - 1) as nat);
        assert(((v % 128) | ((v / 128) << 7)) == v) by (bit_vector);
        assert((s[pos] - 128) as u64 == v % 128);
    }
}

/// Round trip at the wire level: the reference encoding of any value,
/// wherever it stands in a buffer, decodes back to exactly that value,
/// ending exactly after the encoding.
pub proof fn lemma_varint_round_trip(s: Seq<u8>, pos: int, end: int, v: u64)
    requires
        0 <= pos,
        end <= s.len(),
        pos + sp_enc_varint(v).len() <= end,
        s.subrange(pos, pos + sp_enc_varint(v).len() as int) == sp_enc_varint(v),
    ensures
        sp_varint(s, pos, end, 10) == Ok::<(u64, int), DecodeError>(
            (v, pos + sp_enc_varint(v).len()),
        ),
{
    lemma_enc_varint_len(v);
    lemma_varint_round_trip_budget(s, pos, end, v, 10);
}

/// The reference packed payload for varint scalars: each value's
/// encoding, back to back, no tags between them.
pub open spec fn sp_enc_varints(vals: Seq<u64>) -> Seq<u8>
    decreases vals.len(),
{
    if vals.len() == 0 {
        Seq::empty()
    } else {
        sp_enc_varint(vals.first()) + sp_enc_varints(vals.drop_first())
    }
}

/// The scalar values that a sequence of varints stands for under
/// declared type `t`, one per varint, in order.
pub open spec fn sp_scalars_of(t: crate::value::FieldType, vals: Seq<u64>) -> Seq<SpecValue>
    decreases vals.len(),
{
    if vals.len() == 0 {
        Seq::empty()
    } else {
        seq![crate::decode::sp_scalar_of_varint(t, vals.first())] + sp_scalars_of(t, vals.drop_first())
    }
}

proof fn lemma_unpack_encoded_at(s: Seq<u8>, pos: int, end: int, t: crate::value::FieldType, vals: Seq<u64>, acc: Seq<SpecValue>)
    requires
        sp_expected_wire(t) is Varint,
        0 <= pos,
        end <= s.len(),
        end == pos + sp_enc_varints(vals).len(),
        s.subrange(pos, end) == sp_enc_varints(vals),
    ensures
        sp_unpack(s, pos, end, t, acc) == Ok::<Seq<SpecValue>, DecodeError>(acc + sp_scalars_of(t, vals)),
    decreases vals.len(),
{
    if vals.len() == 0 {
        assert(acc + sp_scalars_of(t, vals) =~= acc);
    } else {
        let v0 = vals.first();
        let e0 = sp_enc_varint(v0);
        let rest = sp_enc_varints(vals.drop_first());
        assert(s.subrange(pos, pos + e0.len() as int) =~= e0) by {
            assert forall|j: int| 0 <= j < e0.len() implies s.subrange(pos, pos + e0.len() as int)[j]
                == e0[j] by {
                assert(s.subrange(pos, end)[j] == (e0 + rest)[j]);
            }
        }
        lemma_varint_round_trip(s, pos, end, v0);
        let mid = pos + e0.len() as int;
        assert(s.subrange(mid, end) =~= rest) by {
            assert forall|j: int| 0 <= j < rest.len() implies s.subrange(mid, end)[j] == rest[j] by {
                assert(s.subrange(pos, end)[j + e0.len()] == (e0 + rest)[j + e0.len()]);
            }
        }
        lemma_unpack_encoded_at(s, mid, end, t, vals.drop_first(), acc.push(
            crate::decode::sp_scalar_of_varint(t, v0),
        ));
        assert(acc.push(crate::decode::sp_scalar_of_varint(t, v0)) + sp_scalars_of(t, vals.drop_first())
            =~= acc + sp_scalars_of(t, vals));
    }
}

/// The packed and the unpacked wire form of the same repeated varint
/// scalars land as the same decoded list: a packed span holding each
/// value's encoding back to back unpacks to exactly the per-occurrence
/// scalar values, and appending them all at once is, by definition of
/// the accumulation, appending them one occurrence at a time.
pub proof fn lemma_packed_unpacked_agree(t: crate::value::FieldType, vals: Seq<u64>)
    requires
        sp_expected_wire(t) is Varint,
    ensures
        ({
            let payload = sp_enc_varints(vals);
            sp_unpack(payload, 0, payload.len() as int, t, Seq::empty())
                == Ok::<Seq<SpecValue>, DecodeError>(sp_scalars_of(t, vals))
        }),
{
    let payload = sp_enc_varints(vals);
    assert(payload.subrange(0, payload.len() as int) =~= payload);
    lemma_unpack_encoded_at(payload, 0, payload.len() as int, t, vals, Seq::empty());
    assert(Seq::<SpecValue>::empty() + sp_scalars_of(t, vals) =~= sp_scalars_of(t, vals));
}

proof fn lemma_tag_bits(num: u64, code: u64)
    requires
        num < 0x2000_0000,
        code < 8,
    ensures
        ((num << 3) | code) >> 3 == num,
        ((num << 3) | code) & 7 == code,
{
    assert(((num << 3) | code) >> 3 == num && ((num << 3) | code) & 7 == code) by (bit_vector)
        requires
            num < 0x2000_0000,
            code < 8,
    ;
}

/// The unpacked wire form of a repeated varint-scalar field: one tag and
/// one value encoding per occurrence.
pub open spec fn sp_enc_unpacked(num: u64, vals: Seq<u64>) -> Seq<u8>
    decreases vals.len(),
{
    if vals.len() == 0 {
        Seq::empty()
    } else {
        sp_enc_varint((num << 3) | 0) + sp_enc_varint(vals.first()) + sp_enc_unpacked(
            num,
            vals.drop_first(),
        )
    }
}

/// The packed wire form of the same field: one tag, one length, then
/// every value encoding back to back.
pub open spec fn sp_enc_packed(num: u64, vals: Seq<u64>) -> Seq<u8> {
    sp_enc_varint((num << 3) | 2) + sp_enc_varint(sp_enc_varints(vals).len() as u64)
        + sp_enc_varints(vals)
}

proof fn lemma_subrange_of_concat_left(s: Seq<u8>, pos: int, end: int, a: Seq<u8>, b: Seq<u8>)
    requires
        0 <= pos,
        end <= s.len(),
        end == pos + a.len() + b.len(),
        s.subrange(pos, end) == a + b,
    ensures
        s.subrange(pos, pos + a.len() as int) == a,
        s.subrange(pos + a.len() as int, end) == b,
{
    assert(s.subrange(pos, pos + a.len() as int) =~= a) by {
        assert forall|j: int| 0 <= j < a.len() implies s.subrange(pos, pos + a.len() as int)[j]
            == a[j] by {
            assert(s.subrange(pos, end)[j] == (a + b)[j]);
        }
    }
    assert(s.subrange(pos + a.len() as int, end) =~= b) by {
        assert forall|j: int| 0 <= j < b.len() implies s.subrange(pos + a.len() as int, end)[j]
            == b[j] by {
            assert(0 <= j + a.len() < end - pos);
            assert(s.subrange(pos, end)[j + a.len()] == (a + b)[j + a.len()]);
            assert((a + b)[j + a.len()] == b[j]);
        }
    }
}

proof fn lemma_decode_unpacked_at(
    reg: SpecRegistry,
    s: Seq<u8>,
    pos: int,
    end: int,
    desc: SpecMessageDesc,
    depth: nat,
    cfg: DecodeConfig,
    fd: SpecField,
    vals: Seq<u64>,
    acc: Seq<(u64, SpecValue)>,
)
    requires
        fd.number < 0x2000_0000,
        sp_find_field(desc, fd.number, 0) == Some(fd),
        fd.repeated,
        sp_expected_wire(fd.ftype) is Varint,
        0 <= pos,
        end <= s.len(),
        end == pos + sp_enc_unpacked(fd.number, vals).len(),
        s.subrange(pos, end) == sp_enc_unpacked(fd.number, vals),
    ensures
        sp_decode_fields(reg, s, pos, end, desc, depth, cfg, acc)
            == Ok::<Seq<(u64, SpecValue)>, DecodeError>(
            sp_append_all(acc, fd.number, sp_scalars_of(fd.ftype, vals)),
        ),
    decreases vals.len(),
{
    if vals.len() == 0 {
    } else {
        let tagv = (fd.number << 3) | 0;
        let e_tag = sp_enc_varint(tagv);
        let e_val = sp_enc_varint(vals.first());
        let rest = sp_enc_unpacked(fd.number, vals.drop_first());
        lemma_subrange_of_concat_left(s, pos, end, e_tag + e_val, rest);
        lemma_subrange_of_concat_left(s, pos, pos + e_tag.len() + e_val.len(), e_tag, e_val);
        lemma_varint_round_trip(s, pos, end, tagv);
        lemma_tag_bits(fd.number, 0);
        let p1 = pos + e_tag.len() as int;
        lemma_varint_round_trip(s, p1, end, vals.first());
        let p2 = p1 + e_val.len() as int;
        lemma_enc_varint_len(tagv);
        lemma_enc_varint_len(vals.first());
        let scalar = crate::decode::sp_scalar_of_varint(fd.ftype, vals.first());
        let acc2 = crate::decode::sp_append_repeated(acc, fd.number, scalar);
        assert(sp_tag(s, pos, end) == Ok::<((u64, crate::wire::WireType), int), DecodeError>(
            ((fd.number, crate::wire::WireType::Varint), p1),
        ));
        assert(crate::decode::sp_read_scalar(s, p1, end, fd.ftype)
            == Ok::<(SpecValue, int), DecodeError>((scalar, p2)));
        assert(crate::decode::sp_store(desc, acc, fd, scalar) == acc2);
        assert(sp_decode_fields(reg, s, pos, end, desc, depth, cfg, acc)
            == sp_decode_fields(reg, s, p2, end, desc, depth, cfg, acc2));
        lemma_decode_unpacked_at(
            reg, s, p2, end, desc, depth, cfg, fd, vals.drop_first(), acc2,
        );
        assert(sp_scalars_of(fd.ftype, vals).first() == scalar);
        assert(sp_scalars_of(fd.ftype, vals).drop_first() =~= sp_scalars_of(
            fd.ftype,
            vals.drop_first(),
        ));
        assert(sp_append_all(acc, fd.number, sp_scalars_of(fd.ftype, vals))
            == sp_append_all(acc2, fd.number, sp_scalars_of(fd.ftype, vals.drop_first())));
    }
}

proof fn lemma_decode_packed_at(
    reg: SpecRegistry,
    s: Seq<u8>,
    pos: int,
    end: int,
    desc: SpecMessageDesc,
    depth: nat,
    cfg: DecodeConfig,
    fd: SpecField,
    vals: Seq<u64>,
    acc: Seq<(u64, SpecValue)>,
)
    requires
        fd.number < 0x2000_0000,
        sp_find_field(desc, fd.number, 0) == Some(fd),
        fd.repeated,
        sp_expected_wire(fd.ftype) is Varint,
        sp_enc_varints(vals).len() < 0x1_0000_0000,
        0 <= pos,
        end <= s.len(),
        end == pos + sp_enc_packed(fd.number, vals).len(),
        s.subrange(pos, end) == sp_enc_packed(fd.number, vals),
    ensures
        sp_decode_fields(reg, s, pos, end, desc, depth, cfg, acc)
            == Ok::<Seq<(u64, SpecValue)>, DecodeError>(
            sp_append_all(acc, fd.number, sp_scalars_of(fd.ftype, vals)),
        ),
{
    let tagv = (fd.number << 3) | 2;
    let e_tag = sp_enc_varint(tagv);
    let payload = sp_enc_varints(vals);
    let e_len = sp_enc_varint(payload.len() as u64);
    lemma_subrange_of_concat_left(s, pos, end, e_tag + e_len, payload);
    lemma_subrange_of_concat_left(s, pos, pos + e_tag.len() + e_len.len(), e_tag, e_len);
    lemma_varint_round_trip(s, pos, end, tagv);
    lemma_tag_bits(fd.number, 2);
    let p1 = pos + e_tag.len() as int;
    lemma_varint_round_trip(s, p1, end, payload.len() as u64);
    let a = p1 + e_len.len() as int;
    lemma_enc_varint_len(tagv);
    lemma_enc_varint_len(payload.len() as u64);
    assert(sp_tag(s, pos, end) == Ok::<((u64, crate::wire::WireType), int), DecodeError>(
        ((fd.number, crate::wire::WireType::Len), p1),
    ));
    assert(sp_len_payload(s, p1, end) == Ok::<((int, int), int), DecodeError>(((a, end), end)));
    assert(!(fd.ftype is Message) && !(fd.ftype is Str) && !(fd.ftype is Bytes) && !(fd.ftype
        is Group));
    lemma_unpack_encoded_at(s, a, end, fd.ftype, vals, Seq::empty());
    assert(Seq::<SpecValue>::empty() + sp_scalars_of(fd.ftype, vals) =~= sp_scalars_of(
        fd.ftype,
        vals,
    ));
    let appended = sp_append_all(acc, fd.number, sp_scalars_of(fd.ftype, vals));
    assert(sp_decode_fields(reg, s, end, end, desc, depth, cfg, appended)
        == Ok::<Seq<(u64, SpecValue)>, DecodeError>(appended));
}

/// Packed and unpacked wire encodings of the same repeated varint-scalar
/// values decode to identical entries, so they project to identical
/// JSON arrays.
pub proof fn lemma_packed_unpacked_decode_agree(
    reg: SpecRegistry,
    desc: SpecMessageDesc,
    depth: nat,
    cfg: DecodeConfig,
    fd: SpecField,
    vals: Seq<u64>,
    acc: Seq<(u64, SpecValue)>,
)
    requires
        fd.number < 0x2000_0000,
        sp_find_field(desc, fd.number, 0) == Some(fd),
        fd.repeated,
        sp_expected_wire(fd.ftype) is Varint,
        sp_enc_varints(vals).len() < 0x1_0000_0000,
    ensures
        ({
            let su = sp_enc_unpacked(fd.number, vals);
            let sp = sp_enc_packed(fd.number, vals);
            sp_decode_fields(reg, su, 0, su.len() as int, desc, depth, cfg, acc)
                == sp_decode_fields(reg, sp, 0, sp.len() as int, desc, depth, cfg, acc)
        }),
{
    let su = sp_enc_unpacked(fd.number, vals);
    let sp = sp_enc_packed(fd.number, vals);
    assert(su.subrange(0, su.len() as int) =~= su);
    assert(sp.subrange(0, sp.len() as int) =~= sp);
    lemma_decode_unpacked_at(reg, su, 0, su.len() as int, desc, depth, cfg, fd, vals, acc);
    lemma_decode_packed_at(reg, sp, 0, sp.len() as int, desc, depth, cfg, fd, vals, acc);
}

/// A field number absent from the descriptor is skipped whole (when the
/// configuration does not retain unknown fields): decoding continues
/// after its payload with the accumulated entries unchanged, so no other
/// field's value is affected.
pub proof fn lemma_unknown_field_skipped(
    reg: SpecRegistry,
    s: Seq<u8>,
    pos: int,
    end: int,
    desc: SpecMessageDesc,
    depth: nat,
    cfg: DecodeConfig,
    acc: Seq<(u64, SpecValue)>,
)
    requires
        !cfg.preserve_unknown_fields,
        pos < end,
        sp_tag(s, pos, end) is Ok,
        ({
            let ((num, wt), p1) = sp_tag(s, pos, end)->Ok_0;
            &&& pos < p1 <= end
            &&& sp_find_field(desc, num, 0) is None
            &&& sp_skip(s, p1, end, wt) is Ok
            &&& p1 < sp_skip(s, p1, end, wt)->Ok_0 <= end
        }),
    ensures
        sp_decode_fields(reg, s, pos, end, desc, depth, cfg, acc) == sp_decode_fields(
            reg, s, sp_skip(s, sp_tag(s, pos, end)->Ok_0.1, end, sp_tag(s, pos, end)->Ok_0.0.1)->Ok_0,
            end, desc, depth, cfg, acc,
        ),
{
}

} // verus!
