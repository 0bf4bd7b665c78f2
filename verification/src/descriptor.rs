use vstd::prelude::*;

verus! {

use crate::value::FieldType;

/// One field of a message: number, name (UTF-8 bytes), declared type,
/// label, oneof membership, and for enum/message types the fully-qualified
/// name of the referenced type.
pub struct FieldDescriptor {
    pub number: u64,
    pub name: Vec<u8>,
    pub ftype: FieldType,
    pub repeated: bool,
    pub oneof: Option<i64>,
    pub ref_name: Vec<u8>,
}

pub ghost struct SpecField {
    pub number: u64,
    pub name: Seq<u8>,
    pub ftype: FieldType,
    pub repeated: bool,
    pub oneof: Option<i64>,
    pub ref_name: Seq<u8>,
}

impl View for FieldDescriptor {
    type V = SpecField;

    open spec fn view(&self) -> SpecField {
        SpecField {
            number: self.number,
            name: self.name@,
            ftype: self.ftype,
            repeated: self.repeated,
            oneof: self.oneof,
            ref_name: self.ref_name@,
        }
    }
}

/// A message type: fully-qualified name, fields in declaration order, and
/// whether this type is a synthesized map-entry type.
pub struct MessageDescriptor {
    pub name: Vec<u8>,
    pub fields: Vec<FieldDescriptor>,
    pub map_entry: bool,
}

pub ghost struct SpecMessageDesc {
    pub name: Seq<u8>,
    pub fields: Seq<SpecField>,
    pub map_entry: bool,
}

impl View for MessageDescriptor {
    type V = SpecMessageDesc;

    open spec fn view(&self) -> SpecMessageDesc {
        SpecMessageDesc {
            name: self.name@,
            fields: Seq::new(self.fields.len() as nat, |i: int| self.fields[i]@),
            map_entry: self.map_entry,
        }
    }
}

/// An enum type: fully-qualified name and its (number, name) pairs in
/// declaration order. Numbers need not be unique; the first declared name
/// wins on lookup by number.
pub struct EnumDescriptor {
    pub name: Vec<u8>,
    pub values: Vec<(i64, Vec<u8>)>,
}

pub ghost struct SpecEnumDesc {
    pub name: Seq<u8>,
    pub values: Seq<(i64, Seq<u8>)>,
}

impl View for EnumDescriptor {
    type V = SpecEnumDesc;

    open spec fn view(&self) -> SpecEnumDesc {
        SpecEnumDesc {
            name: self.name@,
            values: Seq::new(self.values.len() as nat, |i: int| (self.values[i].0, self.values[i].1@)),
        }
    }
}

/// All message and enum descriptors of a descriptor set, keyed by
/// fully-qualified name; built once, read-only afterwards.
pub struct DescriptorRegistry {
    pub messages: Vec<MessageDescriptor>,
    pub enums: Vec<EnumDescriptor>,
}

pub ghost struct SpecRegistry {
    pub messages: Seq<SpecMessageDesc>,
    pub enums: Seq<SpecEnumDesc>,
}

impl View for DescriptorRegistry {
    type V = SpecRegistry;

    open spec fn view(&self) -> SpecRegistry {
        SpecRegistry {
            messages: Seq::new(self.messages.len() as nat, |i: int| self.messages[i]@),
            enums: Seq::new(self.enums.len() as nat, |i: int| self.enums[i]@),
        }
    }
}

/// First message descriptor with the given name, scanning from index `i`.
pub open spec fn sp_find_msg(reg: SpecRegistry, name: Seq<u8>, i: int) -> Option<SpecMessageDesc>
    decreases reg.messages.len() - i,
{
    if 0 <= i < reg.messages.len() {
        if reg.messages[i].name == name {
            Some(reg.messages[i])
        } else {
            sp_find_msg(reg, name, i + 1)
        }
    } else {
        None
    }
}

/// First enum descriptor with the given name, scanning from index `i`.
pub open spec fn sp_find_enum(reg: SpecRegistry, name: Seq<u8>, i: int) -> Option<SpecEnumDesc>
    decreases reg.enums.len() - i,
{
    if 0 <= i < reg.enums.len() {
        if reg.enums[i].name == name {
            Some(reg.enums[i])
        } else {
            sp_find_enum(reg, name, i + 1)
        }
    } else {
        None
    }
}

/// First field of `desc` with the given field number, scanning from `i`.
pub open spec fn sp_find_field(desc: SpecMessageDesc, num: u64, i: int) -> Option<SpecField>
    decreases desc.fields.len() - i,
{
    if 0 <= i < desc.fields.len() {
        if desc.fields[i].number == num {
            Some(desc.fields[i])
        } else {
            sp_find_field(desc, num, i + 1)
        }
    } else {
        None
    }
}

/// Byte-string equality.
pub fn bytes_eq(a: &Vec<u8>, b: &Vec<u8>) -> (r: bool)
    ensures
        r == (a@ == b@),
{
    if a.len() != b.len() {
        proof {
            assert(a@ != b@) by {
                assert(a@.len() != b@.len());
            }
        }
        return false;
    }
    let n = a.len();
    let mut i: usize = 0;
    while i < n
        invariant
            i <= n,
            n == a.len() == b.len(),
            forall|j: int| 0 <= j < i ==> a@[j] == b@[j],
        decreases n - i,
    {
        if a[i] != b[i] {
            return false;
        }
        i = i + 1;
    }
    proof {
        assert(a@ =~= b@);
    }
    true
}

impl DescriptorRegistry {
    /// Index of the first message descriptor named `name`, if any.
    pub fn lookup_message(&self, name: &Vec<u8>) -> (r: Option<usize>)
        ensures
            match r {
                Some(i) => 0 <= i < self.messages.len() && sp_find_msg(self@, name@, 0)
                    == Some(self.messages[i as int]@),
                None => sp_find_msg(self@, name@, 0) is None,
            },
    {
        let n = self.messages.len();
        let mut i: usize = 0;
        while i < n
            invariant
                i <= n,
                n == self.messages.len(),
                sp_find_msg(self@, name@, 0) == sp_find_msg(self@, name@, i as int),
            decreases n - i,
        {
            if bytes_eq(&self.messages[i].name, name) {
                return Some(i);
            }
            i = i + 1;
        }
        None
    }

    /// Index of the first enum descriptor named `name`, if any.
    pub fn lookup_enum(&self, name: &Vec<u8>) -> (r: Option<usize>)
        ensures
            match r {
                Some(i) => 0 <= i < self.enums.len() && sp_find_enum(self@, name@, 0)
                    == Some(self.enums[i as int]@),
                None => sp_find_enum(self@, name@, 0) is None,
            },
    {
        let n = self.enums.len();
        let mut i: usize = 0;
        while i < n
            invariant
                i <= n,
                n == self.enums.len(),
                sp_find_enum(self@, name@, 0) == sp_find_enum(self@, name@, i as int),
            decreases n - i,
        {
            if bytes_eq(&self.enums[i].name, name) {
                return Some(i);
            }
            i = i + 1;
        }
        None
    }
}

/// Index of the first field of `desc` with the given number, if any.
pub fn find_field(desc: &MessageDescriptor, num: u64) -> (r: Option<usize>)
    ensures
        match r {
            Some(i) => 0 <= i < desc.fields.len() && sp_find_field(desc@, num, 0)
                == Some(desc.fields[i as int]@),
            None => sp_find_field(desc@, num, 0) is None,
        },
{
    let n = desc.fields.len();
    let mut i: usize = 0;
    while i < n
        invariant
            i <= n,
            n == desc.fields.len(),
            sp_find_field(desc@, num, 0) == sp_find_field(desc@, num, i as int),
        decreases n - i,
    {
        if desc.fields[i].number == num {
            return Some(i);
        }
        i = i + 1;
    }
    None
}

} // verus!
