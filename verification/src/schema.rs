//! The Kiwi schema as the decoder reads it: definitions (enums, structs,
//! messages) and their fields.

use vstd::prelude::*;
use crate::error::KiwiError;

verus! {

pub const TYPE_BOOL: i32 = -1;
pub const TYPE_BYTE: i32 = -2;
pub const TYPE_INT: i32 = -3;
pub const TYPE_UINT: i32 = -4;
pub const TYPE_FLOAT: i32 = -5;
pub const TYPE_STRING: i32 = -6;
pub const TYPE_INT64: i32 = -7;
pub const TYPE_UINT64: i32 = -8;

#[derive(Debug, Clone, Copy, PartialEq, Eq, Structural)]
pub enum DefKind {
    Enum,
    Struct,
    Message,
}

/// A field of a definition: its name, type (a primitive id below zero or a
/// definition index), whether it is an array, and its value (enum value or
/// message field id).
#[derive(Debug)]
pub struct Field {
    pub name: String,
    pub type_id: i32,
    pub is_array: bool,
    pub value: u32,
}

#[derive(Debug)]
pub struct Def {
    pub name: String,
    pub kind: DefKind,
    pub fields: Vec<Field>,
}

#[derive(Debug)]
pub struct Schema {
    pub defs: Vec<Def>,
}

pub struct FieldView {
    pub name: Seq<char>,
    pub type_id: i32,
    pub is_array: bool,
    pub value: u32,
}

pub struct DefView {
    pub name: Seq<char>,
    pub kind: DefKind,
    pub fields: Seq<FieldView>,
}

impl View for Field {
    type V = FieldView;

    open spec fn view(&self) -> FieldView {
        FieldView { name: self.name@, type_id: self.type_id, is_array: self.is_array, value: self.value }
    }
}

impl View for Def {
    type V = DefView;

    open spec fn view(&self) -> DefView {
        DefView { name: self.name@, kind: self.kind, fields: self.fields@.map_values(|f: Field| f@) }
    }
}

impl View for Schema {
    type V = Seq<DefView>;

    open spec fn view(&self) -> Seq<DefView> {
        self.defs@.map_values(|d: Def| d@)
    }
}

/// Every field names a primitive type or an existing definition.
pub open spec fn type_ids_in_range(defs: Seq<DefView>) -> bool {
    forall|d: int, f: int|
        0 <= d < defs.len() && 0 <= f < defs[d].fields.len() ==> {
            let t = #[trigger] defs[d].fields[f].type_id;
            TYPE_UINT64 <= t < defs.len()
        }
}

/// The index of the field whose `value` is `v`; the last one where several
/// share it (a later field overwrites an earlier one in the lookup table).
pub open spec fn field_index_of_value(fields: Seq<FieldView>, v: u32) -> Option<int>
    decreases fields.len(),
{
    if fields.len() == 0 {
        None
    } else if fields.last().value == v {
        Some(fields.len() - 1)
    } else {
        field_index_of_value(fields.drop_last(), v)
    }
}

/// The index of the definition named `name`; the last one where several share it.
pub open spec fn def_index_of_name(defs: Seq<DefView>, name: Seq<char>) -> Option<int>
    decreases defs.len(),
{
    if defs.len() == 0 {
        None
    } else if defs.last().name == name {
        Some(defs.len() - 1)
    } else {
        def_index_of_name(defs.drop_last(), name)
    }
}

/// What `kiwi_schema::Schema::decode` makes of the binary schema `bytes`,
/// definitions in order; `None` where it returns an error.
pub uninterp spec fn kiwi_schema_decoded(bytes: Seq<u8>) -> Option<Seq<DefView>>;

/// `kiwi_schema::Schema::decode`, with its definitions copied field for field
/// into this module's types. Besides the name, the contract states the check
/// that the decoder's source makes on every field: its type id lies between
/// `TYPE_UINT64` and the definition count.
#[verifier::external_body]
fn kiwi_schema_decode_call(bytes: &[u8]) -> (r: Result<Schema, ()>)
    ensures
        r is Ok <==> kiwi_schema_decoded(bytes@) is Some,
        r matches Ok(s) ==> s@ == kiwi_schema_decoded(bytes@).unwrap() && type_ids_in_range(s@),
{
    kiwi_schema::Schema::decode(bytes).map(|s| Schema {
        defs: s.defs.into_iter().map(|d| Def {
            name: d.name,
            kind: match d.kind { kiwi_schema::DefKind::Enum => DefKind::Enum,
                kiwi_schema::DefKind::Struct => DefKind::Struct,
                kiwi_schema::DefKind::Message => DefKind::Message,
             },
            fields: d.fields.into_iter().map(|f| Field {
                name: f.name, type_id: f.type_id, is_array: f.is_array, value: f.value,
            }).collect(),
        }).collect(),
    })
}

impl Schema {
    pub open spec fn wf(&self) -> bool {
        type_ids_in_range(self@)
    }

    /// Decode a binary Kiwi schema.
    pub fn decode(bytes: &[u8]) -> (r: Result<Schema, KiwiError>)
        ensures
            r is Ok <==> kiwi_schema_decoded(bytes@) is Some,
            r matches Ok(s) ==> s@ == kiwi_schema_decoded(bytes@).unwrap() && s.wf(),
            r matches Err(e) ==> e == KiwiError::SchemaRejected,
    {
        match kiwi_schema_decode_call(bytes) {
            Ok(s) => Ok(s),
            Err(_) => Err(KiwiError::SchemaRejected),
        }
    }

    /// Number of definitions.
    pub fn def_count(&self) -> (n: usize)
        ensures
            n == self@.len(),
    {
        self.defs.len()
    }

    /// The index of the definition named `name` (the last such).
    pub fn def_index(&self, name: &str) -> (r: Option<usize>)
        ensures
            r matches Some(i) ==> def_index_of_name(self@, name@) == Some(i as int),
            r is None ==> def_index_of_name(self@, name@) is None,
    {
        let mut i = self.defs.len();
        assert(self@.subrange(0, i as int) =~= self@);
        while i > 0
            invariant
                i <= self.defs@.len(),
                def_index_of_name(self@, name@) == def_index_of_name(self@.subrange(0, i as int), name@),
            decreases i,
        {
            let ghost pre = self@.subrange(0, i as int);
            assert(pre.drop_last() =~= self@.subrange(0, i - 1));
            assert(pre.last() == self.defs@[i - 1]@);
            if crate::text::str_eq(self.defs[i - 1].name.as_str(), name) {
                return Some(i - 1);
            }
            i = i - 1;
        }
        None
    }
}

impl Def {
    /// The index of the field whose value is `v` (the last such).
    pub fn field_index(&self, v: u32) -> (r: Option<usize>)
        ensures
            r matches Some(i) ==> field_index_of_value(self@.fields, v) == Some(i as int) && i < self.fields@.len(),
            r is None ==> field_index_of_value(self@.fields, v) is None,
    {
        let mut i = self.fields.len();
        assert(self@.fields.subrange(0, i as int) =~= self@.fields);
        while i > 0
            invariant
                i <= self.fields@.len(),
                field_index_of_value(self@.fields, v) == field_index_of_value(self@.fields.subrange(0, i as int), v),
            decreases i,
        {
            let ghost pre = self@.fields.subrange(0, i as int);
            assert(pre.drop_last() =~= self@.fields.subrange(0, i - 1));
            if self.fields[i - 1].value == v {
                return Some(i - 1);
            }
            i = i - 1;
        }
        proof {
            assert(self@.fields.subrange(0, 0) =~= Seq::<FieldView>::empty());
        }
        None
    }
}

} // verus!
