use pbjson::decode::DecodeConfig;
use pbjson::json::JsonValue;
use pbjson::DecodeError;
use pbjson::ProtobufToJson;
use protobuf::descriptor::field_descriptor_proto::{Label, Type};
use protobuf::descriptor::{
    DescriptorProto, EnumDescriptorProto, EnumValueDescriptorProto, FieldDescriptorProto,
    FileDescriptorProto, FileDescriptorSet,
};
use protobuf::CodedOutputStream;
use protobuf::Message;

fn bv(s: &str) -> Vec<u8> {
    s.as_bytes().to_vec()
}

fn field(name: &str, number: i32, t: Type, label: Label) -> FieldDescriptorProto {
    let mut f = FieldDescriptorProto::new();
    f.set_name(name.to_string());
    f.set_number(number);
    f.set_type(t);
    f.set_label(label);
    f
}

// Sets the referenced type of an enum- or message-typed field by merging
// the wire form of the descriptor's field 6, which carries that name.
fn set_ref_type(f: &mut FieldDescriptorProto, referenced: &str) {
    let mut extra: Vec<u8> = vec![0x32, referenced.len() as u8];
    extra.extend_from_slice(referenced.as_bytes());
    f.merge_from_bytes(&extra).unwrap();
}

fn message_field(name: &str, number: i32, referenced: &str, label: Label) -> FieldDescriptorProto {
    let mut f = field(name, number, Type::TYPE_MESSAGE, label);
    set_ref_type(&mut f, referenced);
    f
}

fn person_descriptor_set() -> Vec<u8> {
    let mut person = DescriptorProto::new();
    person.set_name("Person".to_string());
    person.field.push(field("name", 1, Type::TYPE_STRING, Label::LABEL_OPTIONAL));
    person.field.push(field("id", 2, Type::TYPE_INT32, Label::LABEL_OPTIONAL));
    person.field.push(field("email", 3, Type::TYPE_STRING, Label::LABEL_OPTIONAL));
    person.field.push(field("phones", 4, Type::TYPE_STRING, Label::LABEL_REPEATED));
    let mut file = FileDescriptorProto::new();
    file.set_name("basic.proto".to_string());
    file.message_type.push(person);
    let mut set = FileDescriptorSet::new();
    set.file.push(file);
    set.write_to_bytes().unwrap()
}

fn encode_person_email(email: &str) -> Vec<u8> {
    let mut person_bytes: Vec<u8> = Vec::new();
    {
        let mut stream = CodedOutputStream::vec(&mut person_bytes);
        stream.write_string(3, email).unwrap();
        stream.flush().unwrap();
    }
    person_bytes
}

#[test]
fn parse_simple_message() {
    let descriptors = person_descriptor_set();
    let person_bytes = encode_person_email("email@example.com");
    let p_to_j = ProtobufToJson::new(&descriptors).unwrap();
    let value = p_to_j.to_json(&bv(".Person"), &person_bytes).unwrap();
    let expected = JsonValue::Obj(vec![
        (bv("name"), JsonValue::Null),
        (bv("id"), JsonValue::Null),
        (bv("email"), JsonValue::Str(bv("email@example.com"))),
        (bv("phones"), JsonValue::Arr(vec![])),
    ]);
    assert_eq!(value, expected);
}

#[test]
fn decode_is_idempotent() {
    let descriptors = person_descriptor_set();
    let person_bytes = encode_person_email("a@b.c");
    let p_to_j = ProtobufToJson::new(&descriptors).unwrap();
    let v1 = p_to_j.to_json(&bv(".Person"), &person_bytes).unwrap();
    let v2 = p_to_j.to_json(&bv(".Person"), &person_bytes).unwrap();
    assert_eq!(v1, v2);
}

#[test]
fn unknown_message_type_is_an_error() {
    let descriptors = person_descriptor_set();
    let p_to_j = ProtobufToJson::new(&descriptors).unwrap();
    let r = p_to_j.to_json(&bv(".Nobody"), &Vec::new());
    assert_eq!(r, Err(DecodeError::UnknownType));
}

#[test]
fn truncated_mid_varint_fails() {
    let descriptors = person_descriptor_set();
    let p_to_j = ProtobufToJson::new(&descriptors).unwrap();
    let mut msg: Vec<u8> = Vec::new();
    {
        let mut stream = CodedOutputStream::vec(&mut msg);
        stream.write_int32(2, 300).unwrap();
        stream.flush().unwrap();
    }
    // Cut inside the two-byte varint value of field 2.
    let cut = msg[..msg.len() - 1].to_vec();
    let r = p_to_j.to_json(&bv(".Person"), &cut);
    assert_eq!(r, Err(DecodeError::TruncatedInput));
}

#[test]
fn truncated_mid_span_fails() {
    let descriptors = person_descriptor_set();
    let p_to_j = ProtobufToJson::new(&descriptors).unwrap();
    let msg = encode_person_email("email@example.com");
    let cut = msg[..msg.len() - 3].to_vec();
    let r = p_to_j.to_json(&bv(".Person"), &cut);
    assert_eq!(r, Err(DecodeError::TruncatedInput));
}

#[test]
fn unsupported_wire_type_fails() {
    let descriptors = person_descriptor_set();
    let p_to_j = ProtobufToJson::new(&descriptors).unwrap();
    // Field 1 with wire type 3 (group start).
    let msg = vec![0x0bu8];
    let r = p_to_j.to_json(&bv(".Person"), &msg);
    assert_eq!(r, Err(DecodeError::UnsupportedWireType));
}

#[test]
fn invalid_varint_fails() {
    let descriptors = person_descriptor_set();
    let p_to_j = ProtobufToJson::new(&descriptors).unwrap();
    // Field 2 varint: eleven continuation bytes, never terminated.
    let mut msg = vec![0x10u8];
    for _ in 0..11 {
        msg.push(0x80);
    }
    msg.push(0);
    let r = p_to_j.to_json(&bv(".Person"), &msg);
    assert_eq!(r, Err(DecodeError::InvalidVarint));
}

#[test]
fn unknown_field_is_skipped() {
    let descriptors = person_descriptor_set();
    let p_to_j = ProtobufToJson::new(&descriptors).unwrap();
    let mut msg: Vec<u8> = Vec::new();
    {
        let mut stream = CodedOutputStream::vec(&mut msg);
        stream.write_string(99, "who knows").unwrap();
        stream.write_string(3, "a@b.c").unwrap();
        stream.write_fixed64(98, 7).unwrap();
        stream.flush().unwrap();
    }
    let with_unknown = p_to_j.to_json(&bv(".Person"), &msg).unwrap();
    let without = p_to_j.to_json(&bv(".Person"), &encode_person_email("a@b.c")).unwrap();
    assert_eq!(with_unknown, without);
}

#[test]
fn unknown_field_retained_still_projects_the_same() {
    let descriptors = person_descriptor_set();
    let cfg = DecodeConfig {
        use_enum_numbers: false,
        preserve_unknown_fields: true,
        int64_as_string: true,
    };
    let keeping = ProtobufToJson::with_config(&descriptors, cfg, 100).unwrap();
    let plain = ProtobufToJson::new(&descriptors).unwrap();
    let mut msg: Vec<u8> = Vec::new();
    {
        let mut stream = CodedOutputStream::vec(&mut msg);
        stream.write_string(99, "who knows").unwrap();
        stream.write_string(3, "a@b.c").unwrap();
        stream.flush().unwrap();
    }
    assert_eq!(
        keeping.to_json(&bv(".Person"), &msg).unwrap(),
        plain.to_json(&bv(".Person"), &msg).unwrap()
    );
}

fn numbers_descriptor_set() -> Vec<u8> {
    let mut m = DescriptorProto::new();
    m.set_name("Numbers".to_string());
    m.field.push(field("a", 1, Type::TYPE_INT32, Label::LABEL_OPTIONAL));
    m.field.push(field("b", 2, Type::TYPE_INT64, Label::LABEL_OPTIONAL));
    m.field.push(field("c", 3, Type::TYPE_UINT64, Label::LABEL_OPTIONAL));
    m.field.push(field("d", 4, Type::TYPE_SINT64, Label::LABEL_OPTIONAL));
    m.field.push(field("e", 5, Type::TYPE_BOOL, Label::LABEL_OPTIONAL));
    m.field.push(field("f", 6, Type::TYPE_BYTES, Label::LABEL_OPTIONAL));
    m.field.push(field("g", 7, Type::TYPE_DOUBLE, Label::LABEL_OPTIONAL));
    m.field.push(field("h", 8, Type::TYPE_FIXED32, Label::LABEL_OPTIONAL));
    m.field.push(field("i", 9, Type::TYPE_UINT32, Label::LABEL_OPTIONAL));
    let mut file = FileDescriptorProto::new();
    file.set_name("numbers.proto".to_string());
    file.message_type.push(m);
    let mut set = FileDescriptorSet::new();
    set.file.push(file);
    set.write_to_bytes().unwrap()
}

#[test]
fn round_trip_scalars_from_reference_encoder() {
    let descriptors = numbers_descriptor_set();
    let p_to_j = ProtobufToJson::new(&descriptors).unwrap();
    let mut msg: Vec<u8> = Vec::new();
    {
        let mut stream = CodedOutputStream::vec(&mut msg);
        stream.write_int32(1, -5).unwrap();
        stream.write_int64(2, 123456789012345).unwrap();
        stream.write_uint64(3, u64::MAX).unwrap();
        stream.write_sint64(4, -42).unwrap();
        stream.write_bool(5, true).unwrap();
        stream.write_bytes(6, &[0u8, 1, 2]).unwrap();
        stream.write_double(7, 1.5).unwrap();
        stream.write_fixed32(8, 7).unwrap();
        stream.write_uint32(9, 4000000000).unwrap();
        stream.flush().unwrap();
    }
    let value = p_to_j.to_json(&bv(".Numbers"), &msg).unwrap();
    let expected = JsonValue::Obj(vec![
        (bv("a"), JsonValue::I64(-5)),
        (bv("b"), JsonValue::Str(bv("123456789012345"))),
        (bv("c"), JsonValue::Str(bv("18446744073709551615"))),
        (bv("d"), JsonValue::Str(bv("-42"))),
        (bv("e"), JsonValue::Bool(true)),
        (bv("f"), JsonValue::Str(bv("AAEC"))),
        (bv("g"), JsonValue::F64Bits(1.5f64.to_bits())),
        (bv("h"), JsonValue::U64(7)),
        (bv("i"), JsonValue::U64(4000000000)),
    ]);
    assert_eq!(value, expected);
}

fn repeated_descriptor_set() -> Vec<u8> {
    let mut m = DescriptorProto::new();
    m.set_name("Rep".to_string());
    m.field.push(field("xs", 1, Type::TYPE_INT32, Label::LABEL_REPEATED));
    let mut file = FileDescriptorProto::new();
    file.set_name("rep.proto".to_string());
    file.message_type.push(m);
    let mut set = FileDescriptorSet::new();
    set.file.push(file);
    set.write_to_bytes().unwrap()
}

#[test]
fn packed_and_unpacked_decode_identically() {
    let descriptors = repeated_descriptor_set();
    let p_to_j = ProtobufToJson::new(&descriptors).unwrap();
    // Unpacked: one tagged varint per element.
    let unpacked = vec![0x08u8, 1, 0x08, 2, 0x08, 0xac, 0x02];
    // Packed: one length-delimited span of back-to-back varints.
    let packed = vec![0x0au8, 4, 1, 2, 0xac, 0x02];
    let v1 = p_to_j.to_json(&bv(".Rep"), &unpacked).unwrap();
    let v2 = p_to_j.to_json(&bv(".Rep"), &packed).unwrap();
    assert_eq!(v1, v2);
    let expected = JsonValue::Obj(vec![(
        bv("xs"),
        JsonValue::Arr(vec![JsonValue::I64(1), JsonValue::I64(2), JsonValue::I64(300)]),
    )]);
    assert_eq!(v1, expected);
}

fn enum_descriptor_set() -> Vec<u8> {
    let mut color = EnumDescriptorProto::new();
    color.set_name("Color".to_string());
    let mut red = EnumValueDescriptorProto::new();
    red.set_name("RED".to_string());
    red.set_number(0);
    color.value.push(red);
    let mut green = EnumValueDescriptorProto::new();
    green.set_name("GREEN".to_string());
    green.set_number(1);
    color.value.push(green);
    let mut m = DescriptorProto::new();
    m.set_name("Paint".to_string());
    let mut f = field("color", 1, Type::TYPE_ENUM, Label::LABEL_OPTIONAL);
    set_ref_type(&mut f, ".Color");
    m.field.push(f);
    let mut file = FileDescriptorProto::new();
    file.set_name("paint.proto".to_string());
    file.message_type.push(m);
    file.enum_type.push(color);
    let mut set = FileDescriptorSet::new();
    set.file.push(file);
    set.write_to_bytes().unwrap()
}

#[test]
fn enum_values_resolve_to_names() {
    let descriptors = enum_descriptor_set();
    let p_to_j = ProtobufToJson::new(&descriptors).unwrap();
    let msg = vec![0x08u8, 1];
    let value = p_to_j.to_json(&bv(".Paint"), &msg).unwrap();
    let expected = JsonValue::Obj(vec![(bv("color"), JsonValue::Str(bv("GREEN")))]);
    assert_eq!(value, expected);
}

#[test]
fn unresolvable_enum_number_stays_numeric() {
    let descriptors = enum_descriptor_set();
    let p_to_j = ProtobufToJson::new(&descriptors).unwrap();
    let msg = vec![0x08u8, 5];
    let value = p_to_j.to_json(&bv(".Paint"), &msg).unwrap();
    let expected = JsonValue::Obj(vec![(bv("color"), JsonValue::I64(5))]);
    assert_eq!(value, expected);
}

#[test]
fn enum_numbers_config_keeps_raw_integers() {
    let descriptors = enum_descriptor_set();
    let cfg = DecodeConfig {
        use_enum_numbers: true,
        preserve_unknown_fields: false,
        int64_as_string: true,
    };
    let p_to_j = ProtobufToJson::with_config(&descriptors, cfg, 100).unwrap();
    let msg = vec![0x08u8, 1];
    let value = p_to_j.to_json(&bv(".Paint"), &msg).unwrap();
    let expected = JsonValue::Obj(vec![(bv("color"), JsonValue::I64(1))]);
    assert_eq!(value, expected);
}

fn nested_descriptor_set() -> Vec<u8> {
    let mut m = DescriptorProto::new();
    m.set_name("Node".to_string());
    m.field.push(message_field("child", 1, ".Node", Label::LABEL_OPTIONAL));
    m.field.push(field("val", 2, Type::TYPE_INT32, Label::LABEL_OPTIONAL));
    let mut file = FileDescriptorProto::new();
    file.set_name("node.proto".to_string());
    file.message_type.push(m);
    let mut set = FileDescriptorSet::new();
    set.file.push(file);
    set.write_to_bytes().unwrap()
}

fn nest(depth: usize) -> Vec<u8> {
    let mut inner: Vec<u8> = vec![0x10, 7];
    for _ in 0..depth {
        let mut outer: Vec<u8> = Vec::new();
        {
            let mut stream = CodedOutputStream::vec(&mut outer);
            stream.write_bytes(1, &inner).unwrap();
            stream.flush().unwrap();
        }
        inner = outer;
    }
    inner
}

#[test]
fn nested_messages_decode() {
    let descriptors = nested_descriptor_set();
    let p_to_j = ProtobufToJson::new(&descriptors).unwrap();
    let value = p_to_j.to_json(&bv(".Node"), &nest(1)).unwrap();
    let expected = JsonValue::Obj(vec![
        (
            bv("child"),
            JsonValue::Obj(vec![
                (bv("child"), JsonValue::Null),
                (bv("val"), JsonValue::I64(7)),
            ]),
        ),
        (bv("val"), JsonValue::Null),
    ]);
    assert_eq!(value, expected);
}

#[test]
fn recursion_limit_is_enforced() {
    let descriptors = nested_descriptor_set();
    let p_to_j = ProtobufToJson::with_config(
        &descriptors,
        DecodeConfig {
            use_enum_numbers: false,
            preserve_unknown_fields: false,
            int64_as_string: true,
        },
        3,
    )
    .unwrap();
    assert!(p_to_j.to_json(&bv(".Node"), &nest(3)).is_ok());
    assert_eq!(
        p_to_j.to_json(&bv(".Node"), &nest(4)),
        Err(DecodeError::RecursionLimitExceeded)
    );
}

fn map_descriptor_set() -> Vec<u8> {
    let mut entry = DescriptorProto::new();
    entry.set_name("CountsEntry".to_string());
    entry.field.push(field("key", 1, Type::TYPE_STRING, Label::LABEL_OPTIONAL));
    entry.field.push(field("value", 2, Type::TYPE_INT32, Label::LABEL_OPTIONAL));
    entry.options.mut_or_insert_default().set_map_entry(true);
    let mut m = DescriptorProto::new();
    m.set_name("Tally".to_string());
    m.field.push(message_field("counts", 1, ".Tally.CountsEntry", Label::LABEL_REPEATED));
    m.nested_type.push(entry);
    let mut file = FileDescriptorProto::new();
    file.set_name("tally.proto".to_string());
    file.message_type.push(m);
    let mut set = FileDescriptorSet::new();
    set.file.push(file);
    set.write_to_bytes().unwrap()
}

fn map_entry_bytes(key: &str, value: i32) -> Vec<u8> {
    let mut out: Vec<u8> = Vec::new();
    {
        let mut stream = CodedOutputStream::vec(&mut out);
        stream.write_string(1, key).unwrap();
        stream.write_int32(2, value).unwrap();
        stream.flush().unwrap();
    }
    out
}

#[test]
fn map_fields_merge_with_last_value_winning() {
    let descriptors = map_descriptor_set();
    let p_to_j = ProtobufToJson::new(&descriptors).unwrap();
    let mut msg: Vec<u8> = Vec::new();
    {
        let mut stream = CodedOutputStream::vec(&mut msg);
        stream.write_bytes(1, &map_entry_bytes("a", 1)).unwrap();
        stream.write_bytes(1, &map_entry_bytes("b", 2)).unwrap();
        stream.write_bytes(1, &map_entry_bytes("a", 3)).unwrap();
        stream.flush().unwrap();
    }
    let value = p_to_j.to_json(&bv(".Tally"), &msg).unwrap();
    let expected = JsonValue::Obj(vec![(
        bv("counts"),
        JsonValue::Obj(vec![
            (bv("a"), JsonValue::I64(3)),
            (bv("b"), JsonValue::I64(2)),
        ]),
    )]);
    assert_eq!(value, expected);
}

#[test]
fn absent_map_field_projects_to_empty_object() {
    let descriptors = map_descriptor_set();
    let p_to_j = ProtobufToJson::new(&descriptors).unwrap();
    let value = p_to_j.to_json(&bv(".Tally"), &Vec::new()).unwrap();
    let expected = JsonValue::Obj(vec![(bv("counts"), JsonValue::Obj(vec![]))]);
    assert_eq!(value, expected);
}

fn oneof_descriptor_set() -> Vec<u8> {
    let mut m = DescriptorProto::new();
    m.set_name("Either".to_string());
    let mut a = field("a", 1, Type::TYPE_STRING, Label::LABEL_OPTIONAL);
    a.set_oneof_index(0);
    let mut b = field("b", 2, Type::TYPE_STRING, Label::LABEL_OPTIONAL);
    b.set_oneof_index(0);
    m.field.push(a);
    m.field.push(b);
    let mut file = FileDescriptorProto::new();
    file.set_name("either.proto".to_string());
    file.message_type.push(m);
    let mut set = FileDescriptorSet::new();
    set.file.push(file);
    set.write_to_bytes().unwrap()
}

#[test]
fn later_oneof_member_displaces_earlier_one() {
    let descriptors = oneof_descriptor_set();
    let p_to_j = ProtobufToJson::new(&descriptors).unwrap();
    let mut msg: Vec<u8> = Vec::new();
    {
        let mut stream = CodedOutputStream::vec(&mut msg);
        stream.write_string(1, "first").unwrap();
        stream.write_string(2, "second").unwrap();
        stream.flush().unwrap();
    }
    let value = p_to_j.to_json(&bv(".Either"), &msg).unwrap();
    let expected = JsonValue::Obj(vec![
        (bv("a"), JsonValue::Null),
        (bv("b"), JsonValue::Str(bv("second"))),
    ]);
    assert_eq!(value, expected);
}

#[test]
fn malformed_descriptor_set_is_rejected() {
    // A length-delimited file entry whose declared length overruns.
    let bogus = vec![0x0au8, 0x20, 1, 2, 3];
    assert_eq!(
        ProtobufToJson::new(&bogus).map(|_| ()),
        Err(DecodeError::DescriptorParseError)
    );
}

#[test]
fn packaged_names_are_fully_qualified() {
    let mut m = DescriptorProto::new();
    m.set_name("Person".to_string());
    m.field.push(field("name", 1, Type::TYPE_STRING, Label::LABEL_OPTIONAL));
    let mut file = FileDescriptorProto::new();
    file.set_name("pkg.proto".to_string());
    file.set_package("com.example".to_string());
    file.message_type.push(m);
    let mut set = FileDescriptorSet::new();
    set.file.push(file);
    let descriptors = set.write_to_bytes().unwrap();
    let p_to_j = ProtobufToJson::new(&descriptors).unwrap();
    assert!(p_to_j.to_json(&bv(".com.example.Person"), &Vec::new()).is_ok());
    assert_eq!(
        p_to_j.to_json(&bv(".Person"), &Vec::new()),
        Err(DecodeError::UnknownType)
    );
}
