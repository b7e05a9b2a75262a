//! Schema-directed Kiwi message decoding into a minimal value tree.
//!
//! Byte arrays stay one contiguous slice borrowed from the message; objects
//! are ordered (name, value) vectors; every field whose name is outside the
//! keep-set is skipped without being built.

use vstd::prelude::*;
use crate::error::{KErr, KiwiError};
use crate::text::str_eq;
use crate::wire::{sp_byte, sp_var_uint, sp_var_uint64, sp_var_float, sp_string, zigzag, lemma_varint_len_bounds};
use crate::types::Number;
use crate::schema::{field_index_of_value, def_index_of_name, TYPE_BOOL, TYPE_BYTE, TYPE_INT, TYPE_UINT, TYPE_FLOAT, TYPE_STRING, TYPE_INT64, TYPE_UINT64};
use crate::schema::{Schema, DefKind, Field, DefView, FieldView};
use crate::wire::ByteBuf;

verus! {

/// A decoded Kiwi value. `Float` holds the `f32` bit pattern.
pub enum FastVal<'m> {
    Bool(bool),
    Int(i32),
    UInt(u32),
    Float(u32),
    Int64(i64),
    UInt64(u64),
    Str(String),
    /// Enum variant name, from the schema.
    Enum(String),
    /// Contiguous byte array, borrowed from the message.
    Bytes(&'m [u8]),
    Arr(Vec<FastVal<'m>>),
    /// Ordered (field name, value) pairs.
    Obj(Vec<(String, FastVal<'m>)>),
}

/// The mathematical value a `FastVal` stands for.
pub enum KValue {
    Bool(bool),
    Int(i32),
    UInt(u32),
    Float(u32),
    Int64(i64),
    UInt64(u64),
    Str(Seq<char>),
    Enum(Seq<char>),
    Bytes(Seq<u8>),
    Arr(Seq<KValue>),
    Obj(Seq<(Seq<char>, KValue)>),
}

impl<'m> FastVal<'m> {
    pub open spec fn val(&self) -> KValue
        decreases self,
    {
        match self {
            FastVal::Bool(b) => KValue::Bool(*b),
            FastVal::Int(i) => KValue::Int(*i),
            FastVal::UInt(u) => KValue::UInt(*u),
            FastVal::Float(f) => KValue::Float(*f),
            FastVal::Int64(i) => KValue::Int64(*i),
            FastVal::UInt64(u) => KValue::UInt64(*u),
            FastVal::Str(s) => KValue::Str(s@),
            FastVal::Enum(s) => KValue::Enum(s@),
            FastVal::Bytes(b) => KValue::Bytes(b@),
            FastVal::Arr(a) => KValue::Arr(vals(a@)),
            FastVal::Obj(o) => KValue::Obj(fields_val(o@)),
        }
    }
}

/// The values of a sequence of `FastVal`s.
pub open spec fn vals<'m>(s: Seq<FastVal<'m>>) -> Seq<KValue>
    decreases s,
{
    if s.len() == 0 {
        Seq::empty()
    } else {
        vals(s.subrange(0, s.len() - 1)).push(s[s.len() - 1].val())
    }
}

/// The (name, value) pairs of an object.
pub open spec fn fields_val<'m>(s: Seq<(String, FastVal<'m>)>) -> Seq<(Seq<char>, KValue)>
    decreases s,
{
    if s.len() == 0 {
        Seq::empty()
    } else {
        fields_val(s.subrange(0, s.len() - 1)).push((s[s.len() - 1].0@, s[s.len() - 1].1.val()))
    }
}

/// A bound on struct entries stacked at one position: twice the number of
/// definitions. A deeper stack repeats a (definition, decode-or-skip) pair at
/// one position with nothing consumed in between, and decoding would never end.
pub open spec fn nesting_budget(defs: Seq<DefView>) -> int {
    2 * (defs.len() as int)
}

/// One primitive value of type `tid` at `p`.
pub open spec fn prim_value(tid: i32, s: Seq<u8>, p: int) -> Result<(KValue, int), KErr> {
    if tid == TYPE_BOOL {
        match sp_byte(s, p) {
            None => Err(KErr::UnexpectedEnd),
            Some((b, p1)) => if b == 0 {
                Ok((KValue::Bool(false), p1))
            } else if b == 1 {
                Ok((KValue::Bool(true), p1))
            } else {
                Err(KErr::InvalidBool)
            },
        }
    } else if tid == TYPE_BYTE {
        match sp_byte(s, p) {
            None => Err(KErr::UnexpectedEnd),
            Some((b, p1)) => Ok((KValue::Int(b as i32), p1)),
        }
    } else if tid == TYPE_INT {
        match sp_var_uint(s, p) {
            None => Err(KErr::UnexpectedEnd),
            Some((v, p1)) => Ok((KValue::Int(zigzag(v as int) as i32), p1)),
        }
    } else if tid == TYPE_UINT {
        match sp_var_uint(s, p) {
            None => Err(KErr::UnexpectedEnd),
            Some((v, p1)) => Ok((KValue::UInt(v), p1)),
        }
    } else if tid == TYPE_FLOAT {
        match sp_var_float(s, p) {
            Err(e) => Err(e),
            Ok((v, p1)) => Ok((KValue::Float(v), p1)),
        }
    } else if tid == TYPE_STRING {
        match sp_string(s, p) {
            None => Err(KErr::UnterminatedString),
            Some((v, p1)) => Ok((KValue::Str(v), p1)),
        }
    } else if tid == TYPE_INT64 {
        match sp_var_uint64(s, p) {
            None => Err(KErr::UnexpectedEnd),
            Some((v, p1)) => Ok((KValue::Int64(zigzag(v as int) as i64), p1)),
        }
    } else if tid == TYPE_UINT64 {
        match sp_var_uint64(s, p) {
            None => Err(KErr::UnexpectedEnd),
            Some((v, p1)) => Ok((KValue::UInt64(v), p1)),
        }
    } else {
        Err(KErr::NonPrimitiveId(tid))
    }
}

/// Skipping one primitive value of type `tid` at `p`; `bad` is the error for a
/// non-primitive id.
pub open spec fn skip_prim_one(tid: i32, s: Seq<u8>, p: int, bad: KErr) -> Result<int, KErr> {
    if tid == TYPE_BOOL || tid == TYPE_BYTE {
        match sp_byte(s, p) {
            None => Err(KErr::UnexpectedEnd),
            Some((_, p1)) => Ok(p1),
        }
    } else if tid == TYPE_INT || tid == TYPE_UINT {
        match sp_var_uint(s, p) {
            None => Err(KErr::UnexpectedEnd),
            Some((_, p1)) => Ok(p1),
        }
    } else if tid == TYPE_FLOAT {
        match sp_var_float(s, p) {
            Err(e) => Err(e),
            Ok((_, p1)) => Ok(p1),
        }
    } else if tid == TYPE_STRING {
        match sp_string(s, p) {
            None => Err(KErr::UnterminatedString),
            Some((_, p1)) => Ok(p1),
        }
    } else if tid == TYPE_INT64 || tid == TYPE_UINT64 {
        match sp_var_uint64(s, p) {
            None => Err(KErr::UnexpectedEnd),
            Some((_, p1)) => Ok(p1),
        }
    } else {
        Err(bad)
    }
}

/// Skipping items `k..count` of a primitive array.
pub open spec fn skip_prim_items(tid: i32, s: Seq<u8>, k: int, count: int, p: int) -> Result<int, KErr>
    decreases count - k,
{
    if k >= count {
        Ok(p)
    } else {
        match skip_prim_one(tid, s, p, KErr::BadSkipArrayId(tid)) {
            Err(e) => Err(e),
            Ok(p1) => skip_prim_items(tid, s, k + 1, count, p1),
        }
    }
}

/// Skipping a primitive value, or a length-prefixed array of them.
pub open spec fn skip_prim(tid: i32, arr: bool, s: Seq<u8>, p: int) -> Result<int, KErr> {
    if !arr {
        skip_prim_one(tid, s, p, KErr::BadSkipId(tid))
    } else {
        match sp_var_uint(s, p) {
            None => Err(KErr::UnexpectedEnd),
            Some((len, p1)) => if tid == TYPE_BOOL || tid == TYPE_BYTE {
                if p1 + len > s.len() { Err(KErr::TruncatedByteArray) } else { Ok(p1 + len) }
            } else if TYPE_UINT64 <= tid <= TYPE_INT {
                skip_prim_items(tid, s, 0, len as int, p1)
            } else {
                Err(KErr::BadSkipArrayId(tid))
            },
        }
    }
}

/// The object fields after adding a decoded field (or nothing, for a skipped one).
pub open spec fn add_field(acc: Seq<(Seq<char>, KValue)>, name: Seq<char>, ov: Option<KValue>) -> Seq<(Seq<char>, KValue)> {
    match ov {
        Some(v) => acc.push((name, v)),
        None => acc,
    }
}

/// Decoding a value of the definition `tid` at `p`; `z` counts the struct
/// definitions entered at this position with nothing consumed since.
pub open spec fn dec_defined(defs: Seq<DefView>, s: Seq<u8>, tid: i32, p: int, z: int) -> Result<(KValue, int), KErr>
    decreases s.len() - p, nesting_budget(defs) - z, 2int,
{
    if !(0 <= tid < defs.len()) {
        Err(KErr::BadTypeId(tid))
    } else if !(0 <= z <= nesting_budget(defs)) {
        Err(KErr::EndlessNesting)
    } else {
        let d = defs[tid as int];
        match d.kind {
            DefKind::Enum => match sp_var_uint(s, p) {
                None => Err(KErr::UnexpectedEnd),
                Some((raw, p1)) => match field_index_of_value(d.fields, raw) {
                    Some(k) => Ok((KValue::Enum(d.fields[k].name), p1)),
                    None => Err(KErr::UnknownEnumValue { value: raw, def_name: d.name }),
                },
            },
            DefKind::Struct => if z >= nesting_budget(defs) {
                Err(KErr::EndlessNesting)
            } else {
                match dec_struct(defs, s, tid, 0, p, p, z + 1, Seq::empty()) {
                    Ok((fs, p1)) => Ok((KValue::Obj(fs), p1)),
                    Err(e) => Err(e),
                }
            },
            DefKind::Message => match dec_msg(defs, s, tid, p, z, Seq::empty()) {
                Ok((fs, p1)) => Ok((KValue::Obj(fs), p1)),
                Err(e) => Err(e),
            },
        }
    }
}

/// Decoding the fields `i..` of the struct `tid` entered at `p0`, now at `p`.
/// The guard on positions is never taken by the decoder.
pub open spec fn dec_struct(
    defs: Seq<DefView>, s: Seq<u8>, tid: i32, i: int, p0: int, p: int, z: int,
    acc: Seq<(Seq<char>, KValue)>,
) -> Result<(Seq<(Seq<char>, KValue)>, int), KErr>
    decreases s.len() - p0, nesting_budget(defs) - z, 5 + defs[tid as int].fields.len() - i,
{
    if !(0 <= tid < defs.len()) || !(p0 <= p <= s.len()) || i < 0 || !(0 <= z <= nesting_budget(defs)) {
        Err(KErr::UnexpectedEnd)
    } else if i >= defs[tid as int].fields.len() {
        Ok((acc, p))
    } else {
        let f = defs[tid as int].fields[i];
        let zf = if p > p0 { 0 } else { z };
        match dec_field(defs, s, f, p, zf) {
            Err(e) => Err(e),
            Ok((ov, p1)) => dec_struct(defs, s, tid, i + 1, p0, p1, z, add_field(acc, f.name, ov)),
        }
    }
}

/// Decoding the (id, value) pairs of the message `tid` from `p` up to its zero id.
pub open spec fn dec_msg(
    defs: Seq<DefView>, s: Seq<u8>, tid: i32, p: int, z: int, acc: Seq<(Seq<char>, KValue)>,
) -> Result<(Seq<(Seq<char>, KValue)>, int), KErr>
    decreases s.len() - p, nesting_budget(defs) - z, 0int,
{
    if !(0 <= tid < defs.len()) || !(0 <= p <= s.len()) || !(0 <= z <= nesting_budget(defs)) {
        Err(KErr::UnexpectedEnd)
    } else {
        match sp_var_uint(s, p) {
            None => Err(KErr::UnexpectedEnd),
            Some((id, p1)) => if id == 0 {
                Ok((acc, p1))
            } else {
                let d = defs[tid as int];
                match field_index_of_value(d.fields, id) {
                    None => Err(KErr::UnknownField { id, message: d.name }),
                    Some(k) => {
                        proof {
                            lemma_varint_len_bounds(s, p, 5);
                        }
                        let f = d.fields[k];
                        match dec_field(defs, s, f, p1, 0) {
                            Err(e) => Err(e),
                            Ok((ov, p2)) => if !(p1 <= p2 <= s.len()) {
                                Err(KErr::UnexpectedEnd)
                            } else {
                                dec_msg(defs, s, tid, p2, z, add_field(acc, f.name, ov))
                            },
                        }
                    },
                }
            },
        }
    }
}

/// Decoding one field at `p`: skipped unless its name is kept; otherwise a
/// defined value, a primitive, a byte array, or a length-prefixed array.
pub open spec fn dec_field(defs: Seq<DefView>, s: Seq<u8>, f: FieldView, p: int, z: int) -> Result<(Option<KValue>, int), KErr>
    decreases s.len() - p, nesting_budget(defs) - z, 4int,
{
    if !is_kept(f.name) {
        match skip_val(defs, s, f.type_id, f.is_array, p, z) {
            Ok(p1) => Ok((None, p1)),
            Err(e) => Err(e),
        }
    } else if !f.is_array && f.type_id >= 0 {
        match dec_defined(defs, s, f.type_id, p, z) {
            Ok((v, p1)) => Ok((Some(v), p1)),
            Err(e) => Err(e),
        }
    } else if !f.is_array {
        match prim_value(f.type_id, s, p) {
            Ok((v, p1)) => Ok((Some(v), p1)),
            Err(e) => Err(e),
        }
    } else {
        match sp_var_uint(s, p) {
            None => Err(KErr::UnexpectedEnd),
            Some((len, p1)) => if f.type_id == TYPE_BYTE {
                if p1 + len > s.len() {
                    Err(KErr::TruncatedByteArray)
                } else {
                    Ok((Some(KValue::Bytes(s.subrange(p1, p1 + len))), p1 + len))
                }
            } else {
                proof {
                    lemma_varint_len_bounds(s, p, 5);
                }
                match dec_items(defs, s, f.type_id, 0, len as int, p1, p1, Seq::empty()) {
                    Ok((vs, p2)) => Ok((Some(KValue::Arr(vs)), p2)),
                    Err(e) => Err(e),
                }
            },
        }
    }
}

/// Decoding items `k..count` of an array that starts at `p0`, now at `p`.
pub open spec fn dec_items(
    defs: Seq<DefView>, s: Seq<u8>, tid: i32, k: int, count: int, p0: int, p: int, acc: Seq<KValue>,
) -> Result<(Seq<KValue>, int), KErr>
    decreases s.len() - p0, nesting_budget(defs), 3 + count - k,
{
    if !(p0 <= p <= s.len()) || k < 0 {
        Err(KErr::UnexpectedEnd)
    } else if k >= count {
        Ok((acc, p))
    } else {
        let r = if tid >= 0 { dec_defined(defs, s, tid, p, 0) } else { prim_value(tid, s, p) };
        match r {
            Err(e) => Err(e),
            Ok((v, p1)) => dec_items(defs, s, tid, k + 1, count, p0, p1, acc.push(v)),
        }
    }
}

/// Advancing past a value of type `tid` (an array of them when `arr`) at `p`
/// without building anything.
pub open spec fn skip_val(defs: Seq<DefView>, s: Seq<u8>, tid: i32, arr: bool, p: int, z: int) -> Result<int, KErr>
    decreases s.len() - p, nesting_budget(defs) - z, 3int,
{
    if tid >= 0 {
        if tid >= defs.len() {
            Err(KErr::BadTypeId(tid))
        } else if arr {
            match sp_var_uint(s, p) {
                None => Err(KErr::UnexpectedEnd),
                Some((count, p1)) => {
                    proof {
                        lemma_varint_len_bounds(s, p, 5);
                    }
                    skip_items(defs, s, tid, 0, count as int, p1, p1)
                },
            }
        } else {
            skip_one(defs, s, tid, p, z)
        }
    } else {
        skip_prim(tid, arr, s, p)
    }
}

/// Skipping items `k..count` of an array of the definition `tid`.
pub open spec fn skip_items(defs: Seq<DefView>, s: Seq<u8>, tid: i32, k: int, count: int, p0: int, p: int) -> Result<int, KErr>
    decreases s.len() - p0, nesting_budget(defs), 3 + count - k,
{
    if !(p0 <= p <= s.len()) || k < 0 {
        Err(KErr::UnexpectedEnd)
    } else if k >= count {
        Ok(p)
    } else {
        match skip_one(defs, s, tid, p, 0) {
            Err(e) => Err(e),
            Ok(p1) => skip_items(defs, s, tid, k + 1, count, p0, p1),
        }
    }
}

/// Skipping one value of the definition `tid` at `p`.
pub open spec fn skip_one(defs: Seq<DefView>, s: Seq<u8>, tid: i32, p: int, z: int) -> Result<int, KErr>
    decreases s.len() - p, nesting_budget(defs) - z, 2int,
{
    if !(0 <= tid < defs.len()) || !(0 <= z <= nesting_budget(defs)) {
        Err(KErr::UnexpectedEnd)
    } else {
        match defs[tid as int].kind {
            DefKind::Enum => match sp_var_uint(s, p) {
                None => Err(KErr::UnexpectedEnd),
                Some((_, p1)) => Ok(p1),
            },
            DefKind::Struct => if z >= nesting_budget(defs) {
                Err(KErr::EndlessNesting)
            } else {
                skip_struct(defs, s, tid, 0, p, p, z + 1)
            },
            DefKind::Message => skip_msg(defs, s, tid, p, z),
        }
    }
}

/// Skipping the fields `i..` of the struct `tid` entered at `p0`, now at `p`.
pub open spec fn skip_struct(defs: Seq<DefView>, s: Seq<u8>, tid: i32, i: int, p0: int, p: int, z: int) -> Result<int, KErr>
    decreases s.len() - p0, nesting_budget(defs) - z, 5 + defs[tid as int].fields.len() - i,
{
    if !(0 <= tid < defs.len()) || !(p0 <= p <= s.len()) || i < 0 || !(0 <= z <= nesting_budget(defs)) {
        Err(KErr::UnexpectedEnd)
    } else if i >= defs[tid as int].fields.len() {
        Ok(p)
    } else {
        let f = defs[tid as int].fields[i];
        let zf = if p > p0 { 0 } else { z };
        match skip_val(defs, s, f.type_id, f.is_array, p, zf) {
            Err(e) => Err(e),
            Ok(p1) => skip_struct(defs, s, tid, i + 1, p0, p1, z),
        }
    }
}

/// Skipping the (id, value) pairs of the message `tid` from `p` up to its zero id.
pub open spec fn skip_msg(defs: Seq<DefView>, s: Seq<u8>, tid: i32, p: int, z: int) -> Result<int, KErr>
    decreases s.len() - p, nesting_budget(defs) - z, 0int,
{
    if !(0 <= tid < defs.len()) || !(0 <= p <= s.len()) || !(0 <= z <= nesting_budget(defs)) {
        Err(KErr::UnexpectedEnd)
    } else {
        match sp_var_uint(s, p) {
            None => Err(KErr::UnexpectedEnd),
            Some((id, p1)) => if id == 0 {
                Ok(p1)
            } else {
                let d = defs[tid as int];
                match field_index_of_value(d.fields, id) {
                    None => Err(KErr::UnknownFieldWhileSkipping { id, message: d.name }),
                    Some(k) => {
                        proof {
                            lemma_varint_len_bounds(s, p, 5);
                        }
                        let f = d.fields[k];
                        match skip_val(defs, s, f.type_id, f.is_array, p1, 0) {
                            Err(e) => Err(e),
                            Ok(p2) => if !(p1 <= p2 <= s.len()) {
                                Err(KErr::UnexpectedEnd)
                            } else {
                                skip_msg(defs, s, tid, p2, z)
                            },
                        }
                    },
                }
            },
        }
    }
}

/// The definition a message is decoded as: the one named `Message`, or else the first.
pub open spec fn root_type(defs: Seq<DefView>) -> Option<int> {
    match def_index_of_name(defs, "Message"@) {
        Some(i) => Some(i),
        None => if defs.len() > 0 { Some(0) } else { None },
    }
}

/// The root value of `message` decoded against `defs`.
pub open spec fn decode_message(defs: Seq<DefView>, message: Seq<u8>) -> Result<KValue, KErr> {
    match root_type(defs) {
        None => Err(KErr::NoRootType),
        Some(t) => match dec_defined(defs, message, t as i32, 0, 0) {
            Ok((v, _)) => Ok(v),
            Err(e) => Err(e),
        },
    }
}

/// Every object field name inside `v` is kept.
pub open spec fn names_kept(v: KValue) -> bool
    decreases v,
{
    match v {
        KValue::Arr(a) => forall|i: int| 0 <= i < a.len() ==> names_kept(#[trigger] a[i]),
        KValue::Obj(fs) => forall|i: int| 0 <= i < fs.len() ==> is_kept((#[trigger] fs[i]).0) && names_kept(fs[i].1),
        _ => true,
    }
}

pub open spec fn fields_kept(fs: Seq<(Seq<char>, KValue)>) -> bool {
    forall|i: int| 0 <= i < fs.len() ==> is_kept((#[trigger] fs[i]).0) && names_kept(fs[i].1)
}

proof fn lemma_dec_defined_kept(defs: Seq<DefView>, s: Seq<u8>, tid: i32, p: int, z: int)
    ensures
        dec_defined(defs, s, tid, p, z) matches Ok((v, _)) ==> names_kept(v),
    decreases s.len() - p, nesting_budget(defs) - z, 2int,
{
    if 0 <= tid < defs.len() && 0 <= z <= nesting_budget(defs) {
        match defs[tid as int].kind {
            DefKind::Enum => {},
            DefKind::Struct => {
                if z < nesting_budget(defs) {
                    lemma_dec_struct_kept(defs, s, tid, 0, p, p, z + 1, Seq::empty());
                    if let Ok((fs, p1)) = dec_struct(defs, s, tid, 0, p, p, z + 1, Seq::empty()) {
                        assert forall|i: int| 0 <= i < fs.len() implies is_kept((#[trigger] fs[i]).0) && names_kept(
                            fs[i].1,
                        ) by {}
                        assert(names_kept(KValue::Obj(fs)));
                    }
                }
            },
            DefKind::Message => {
                lemma_dec_msg_kept(defs, s, tid, p, z, Seq::empty());
                if let Ok((fs, p1)) = dec_msg(defs, s, tid, p, z, Seq::empty()) {
                    assert forall|i: int| 0 <= i < fs.len() implies is_kept((#[trigger] fs[i]).0) && names_kept(fs[i].1) by {}
                    assert(names_kept(KValue::Obj(fs)));
                }
            },
        }
    }
}

proof fn lemma_add_field_kept(acc: Seq<(Seq<char>, KValue)>, name: Seq<char>, ov: Option<KValue>)
    requires
        fields_kept(acc),
        ov matches Some(v) ==> is_kept(name) && names_kept(v),
    ensures
        fields_kept(add_field(acc, name, ov)),
{
    if let Some(v) = ov {
        let a2 = acc.push((name, v));
        assert forall|i: int| 0 <= i < a2.len() implies is_kept((#[trigger] a2[i]).0) && names_kept(a2[i].1) by {
            if i < acc.len() {
                assert(a2[i] == acc[i]);
                assert(is_kept(acc[i].0) && names_kept(acc[i].1));
            } else {
                assert(a2[i] == (name, v));
            }
        }
    }
}

proof fn lemma_dec_struct_kept(
    defs: Seq<DefView>,
    s: Seq<u8>,
    tid: i32,
    i: int,
    p0: int,
    p: int,
    z: int,
    acc: Seq<(Seq<char>, KValue)>,
)
    requires
        fields_kept(acc),
    ensures
        dec_struct(defs, s, tid, i, p0, p, z, acc) matches Ok((fs, _)) ==> fields_kept(fs),
    decreases s.len() - p0, nesting_budget(defs) - z, 5 + defs[tid as int].fields.len() - i,
{
    if 0 <= tid < defs.len() && p0 <= p <= s.len() && i >= 0 && 0 <= z <= nesting_budget(defs) && i
        < defs[tid as int].fields.len() {
        let f = defs[tid as int].fields[i];
        let zf = if p > p0 { 0 } else { z };
        lemma_dec_field_kept(defs, s, f, p, zf);
        match dec_field(defs, s, f, p, zf) {
            Err(e) => {},
            Ok((ov, p1)) => {
                lemma_add_field_kept(acc, f.name, ov);
                lemma_dec_struct_kept(defs, s, tid, i + 1, p0, p1, z, add_field(acc, f.name, ov));
            },
        }
    }
}

proof fn lemma_dec_msg_kept(defs: Seq<DefView>, s: Seq<u8>, tid: i32, p: int, z: int, acc: Seq<(Seq<char>, KValue)>)
    requires
        fields_kept(acc),
    ensures
        dec_msg(defs, s, tid, p, z, acc) matches Ok((fs, _)) ==> fields_kept(fs),
    decreases s.len() - p, nesting_budget(defs) - z, 0int,
{
    if 0 <= tid < defs.len() && 0 <= p <= s.len() && 0 <= z <= nesting_budget(defs) {
        match sp_var_uint(s, p) {
            None => {},
            Some((id, p1)) => {
                if id != 0 {
                    let d = defs[tid as int];
                    match field_index_of_value(d.fields, id) {
                        None => {},
                        Some(k) => {
                            lemma_varint_len_bounds(s, p, 5);
                            let f = d.fields[k];
                            lemma_dec_field_kept(defs, s, f, p1, 0);
                            match dec_field(defs, s, f, p1, 0) {
                                Err(e) => {},
                                Ok((ov, p2)) => {
                                    if p1 <= p2 <= s.len() {
                                        lemma_add_field_kept(acc, f.name, ov);
                                        lemma_dec_msg_kept(defs, s, tid, p2, z, add_field(acc, f.name, ov));
                                    }
                                },
                            }
                        },
                    }
                }
            },
        }
    }
}

proof fn lemma_dec_field_kept(defs: Seq<DefView>, s: Seq<u8>, f: FieldView, p: int, z: int)
    ensures
        dec_field(defs, s, f, p, z) matches Ok((Some(v), _)) ==> is_kept(f.name) && names_kept(v),
    decreases s.len() - p, nesting_budget(defs) - z, 4int,
{
    if is_kept(f.name) {
        if !f.is_array && f.type_id >= 0 {
            lemma_dec_defined_kept(defs, s, f.type_id, p, z);
        } else if f.is_array {
            match sp_var_uint(s, p) {
                None => {},
                Some((len, p1)) => {
                    if f.type_id != TYPE_BYTE {
                        lemma_varint_len_bounds(s, p, 5);
                        lemma_dec_items_kept(defs, s, f.type_id, 0, len as int, p1, p1, Seq::empty());
                        match dec_items(defs, s, f.type_id, 0, len as int, p1, p1, Seq::empty()) {
                            Ok((vs, p2)) => {
                                assert forall|i: int| 0 <= i < vs.len() implies names_kept(#[trigger] vs[i]) by {}
                                assert(names_kept(KValue::Arr(vs)));
                            },
                            Err(e) => {},
                        }
                    }
                },
            }
        }
    }
}

proof fn lemma_dec_items_kept(
    defs: Seq<DefView>,
    s: Seq<u8>,
    tid: i32,
    k: int,
    count: int,
    p0: int,
    p: int,
    acc: Seq<KValue>,
)
    requires
        forall|i: int| 0 <= i < acc.len() ==> names_kept(#[trigger] acc[i]),
    ensures
        dec_items(defs, s, tid, k, count, p0, p, acc) matches Ok((vs, _)) ==> forall|i: int|
            0 <= i < vs.len() ==> names_kept(#[trigger] vs[i]),
    decreases s.len() - p0, nesting_budget(defs), 3 + count - k,
{
    if p0 <= p <= s.len() && k >= 0 && k < count {
        if tid >= 0 {
            lemma_dec_defined_kept(defs, s, tid, p, 0);
        }
        let r = if tid >= 0 { dec_defined(defs, s, tid, p, 0) } else { prim_value(tid, s, p) };
        match r {
            Err(e) => {},
            Ok((v, p1)) => {
                let a2 = acc.push(v);
                assert forall|i: int| 0 <= i < a2.len() implies names_kept(#[trigger] a2[i]) by {
                    if i < acc.len() {
                        assert(a2[i] == acc[i]);
                    }
                }
                lemma_dec_items_kept(defs, s, tid, k + 1, count, p0, p1, a2);
            },
        }
    }
}

/// The decoder builds only kept fields: every object field name inside a
/// decoded message is in the keep-set.
pub proof fn law_decoded_names_kept(defs: Seq<DefView>, message: Seq<u8>)
    ensures
        decode_message(defs, message) matches Ok(v) ==> names_kept(v),
{
    if let Some(t) = root_type(defs) {
        lemma_dec_defined_kept(defs, message, t as i32, 0, 0);
    }
}

/// The value of an optional `FastVal`.
pub open spec fn opt_val<'m>(o: Option<FastVal<'m>>) -> Option<KValue> {
    match o {
        Some(v) => Some(v.val()),
        None => None,
    }
}

/// `r`, with the cursor left at `idx`, is what the spec outcome `sp` describes.
pub open spec fn val_res<'m>(r: Result<FastVal<'m>, KiwiError>, idx: int, sp: Result<(KValue, int), KErr>) -> bool {
    match sp {
        Ok((v, p1)) => r is Ok && r->Ok_0.val() == v && idx == p1,
        Err(e) => r is Err && r->Err_0@ == e,
    }
}

/// As `val_res`, for a field that may have been skipped.
pub open spec fn opt_res<'m>(r: Result<Option<FastVal<'m>>, KiwiError>, idx: int, sp: Result<(Option<KValue>, int), KErr>) -> bool {
    match sp {
        Ok((v, p1)) => r is Ok && opt_val(r->Ok_0) == v && idx == p1,
        Err(e) => r is Err && r->Err_0@ == e,
    }
}

/// As `val_res`, for skipping.
pub open spec fn skip_res(r: Result<(), KiwiError>, idx: int, sp: Result<int, KErr>) -> bool {
    match sp {
        Ok(p1) => r is Ok && idx == p1,
        Err(e) => r is Err && r->Err_0@ == e,
    }
}

proof fn lemma_vals_push<'m>(s: Seq<FastVal<'m>>, x: FastVal<'m>)
    ensures
        vals(s.push(x)) == vals(s).push(x.val()),
{
    assert(s.push(x).subrange(0, s.len() as int) =~= s);
}

proof fn lemma_fields_val_push<'m>(s: Seq<(String, FastVal<'m>)>, x: (String, FastVal<'m>))
    ensures
        fields_val(s.push(x)) == fields_val(s).push((x.0@, x.1.val())),
{
    assert(s.push(x).subrange(0, s.len() as int) =~= s);
}

/// One primitive value of type `tid`.
pub fn read_primitive<'m>(tid: i32, bb: &mut ByteBuf<'m>) -> (r: Result<FastVal<'m>, KiwiError>)
    requires
        old(bb).wf(),
    ensures
        final(bb).wf(),
        final(bb).data == old(bb).data,
        final(bb).index >= old(bb).index,
        val_res(r, final(bb).index as int, prim_value(tid, old(bb).data@, old(bb).index as int)),
{
    if tid == TYPE_BOOL {
        match bb.read_bool() {
            Ok(b) => Ok(FastVal::Bool(b)),
            Err(e) => Err(e),
        }
    } else if tid == TYPE_BYTE {
        match bb.read_byte() {
            Ok(b) => Ok(FastVal::Int(b as i32)),
            Err(e) => Err(e),
        }
    } else if tid == TYPE_INT {
        match bb.read_var_int() {
            Ok(v) => Ok(FastVal::Int(v)),
            Err(e) => Err(e),
        }
    } else if tid == TYPE_UINT {
        match bb.read_var_uint() {
            Ok(v) => Ok(FastVal::UInt(v)),
            Err(e) => Err(e),
        }
    } else if tid == TYPE_FLOAT {
        match bb.read_var_float() {
            Ok(v) => Ok(FastVal::Float(v)),
            Err(e) => Err(e),
        }
    } else if tid == TYPE_STRING {
        match bb.read_string() {
            Ok(v) => Ok(FastVal::Str(v)),
            Err(e) => Err(e),
        }
    } else if tid == TYPE_INT64 {
        match bb.read_var_int64() {
            Ok(v) => Ok(FastVal::Int64(v)),
            Err(e) => Err(e),
        }
    } else if tid == TYPE_UINT64 {
        match bb.read_var_uint64() {
            Ok(v) => Ok(FastVal::UInt64(v)),
            Err(e) => Err(e),
        }
    } else {
        Err(KiwiError::NonPrimitiveId(tid))
    }
}

fn skip_primitive_one(tid: i32, bb: &mut ByteBuf, array: bool) -> (r: Result<(), KiwiError>)
    requires
        old(bb).wf(),
    ensures
        final(bb).wf(),
        final(bb).data == old(bb).data,
        final(bb).index >= old(bb).index,
        skip_res(r, final(bb).index as int, skip_prim_one(tid, old(bb).data@, old(bb).index as int,
            if array { KErr::BadSkipArrayId(tid) } else { KErr::BadSkipId(tid) })),
{
    if tid == TYPE_BOOL || tid == TYPE_BYTE {
        match bb.read_byte() {
            Ok(_) => Ok(()),
            Err(e) => Err(e),
        }
    } else if tid == TYPE_INT || tid == TYPE_UINT {
        match bb.read_var_uint() {
            Ok(_) => Ok(()),
            Err(e) => Err(e),
        }
    } else if tid == TYPE_FLOAT {
        match bb.read_var_float() {
            Ok(_) => Ok(()),
            Err(e) => Err(e),
        }
    } else if tid == TYPE_STRING {
        match bb.read_string() {
            Ok(_) => Ok(()),
            Err(e) => Err(e),
        }
    } else if tid == TYPE_INT64 || tid == TYPE_UINT64 {
        match bb.read_var_uint64() {
            Ok(_) => Ok(()),
            Err(e) => Err(e),
        }
    } else if array {
        Err(KiwiError::BadSkipArrayId(tid))
    } else {
        Err(KiwiError::BadSkipId(tid))
    }
}

fn skip_primitive_items(tid: i32, bb: &mut ByteBuf, count: u32) -> (r: Result<(), KiwiError>)
    requires
        old(bb).wf(),
    ensures
        final(bb).wf(),
        final(bb).data == old(bb).data,
        final(bb).index >= old(bb).index,
        skip_res(r, final(bb).index as int, skip_prim_items(tid, old(bb).data@, 0, count as int, old(bb).index as int)),
{
    let ghost s = bb.data@;
    let ghost p1 = bb.index as int;
    let mut k: u32 = 0;
    while k < count
        invariant
            bb.wf(),
            bb.data == old(bb).data,
            s == bb.data@,
            p1 == old(bb).index,
            bb.index >= p1,
            k <= count,
            skip_prim_items(tid, s, 0, count as int, p1) == skip_prim_items(tid, s, k as int, count as int, bb.index as int),
        decreases count - k,
    {
        match skip_primitive_one(tid, bb, true) {
            Ok(_) => {},
            Err(e) => {
                return Err(e);
            },
        }
        k = k + 1;
    }
    Ok(())
}

/// Advance past a primitive value, or a length-prefixed array of them.
pub fn skip_primitive(tid: i32, is_array: bool, bb: &mut ByteBuf) -> (r: Result<(), KiwiError>)
    requires
        old(bb).wf(),
    ensures
        final(bb).wf(),
        final(bb).data == old(bb).data,
        final(bb).index >= old(bb).index,
        skip_res(r, final(bb).index as int, skip_prim(tid, is_array, old(bb).data@, old(bb).index as int)),
{
    if !is_array {
        return skip_primitive_one(tid, bb, false);
    }
    let len = match bb.read_var_uint() {
        Ok(v) => v,
        Err(e) => {
            return Err(e);
        }
    };
    if tid == TYPE_BOOL || tid == TYPE_BYTE {
        return match bb.take_bytes(len as usize) {
            Ok(_) => Ok(()),
            Err(e) => Err(e),
        };
    }
    if !(TYPE_UINT64 <= tid && tid <= TYPE_INT) {
        return Err(KiwiError::BadSkipArrayId(tid));
    }
    skip_primitive_items(tid, bb, len)
}

/// Decode a value of the definition `tid`; `z` counts the struct definitions
/// entered at the current position with nothing consumed since.
pub fn decode_defined<'m>(schema: &Schema, tid: i32, bb: &mut ByteBuf<'m>, z: usize) -> (r: Result<FastVal<'m>, KiwiError>)
    requires
        old(bb).wf(),
        z <= nesting_budget(schema@),
        nesting_budget(schema@) < usize::MAX,
    ensures
        final(bb).wf(),
        final(bb).data == old(bb).data,
        final(bb).index >= old(bb).index,
        val_res(r, final(bb).index as int, dec_defined(schema@, old(bb).data@, tid, old(bb).index as int, z as int)),
    decreases old(bb).data@.len() - old(bb).index, nesting_budget(schema@) - z, 3int,
{
    if tid < 0 || tid as usize >= schema.defs.len() {
        return Err(KiwiError::BadTypeId(tid));
    }
    let d = &schema.defs[tid as usize];
    assert(schema@[tid as int] == d@);
    match d.kind {
        DefKind::Enum => {
            let raw = match bb.read_var_uint() {
                Ok(v) => v,
                Err(e) => {
                    return Err(e);
                }
            };
            match d.field_index(raw) {
                Some(k) => Ok(FastVal::Enum(d.fields[k].name.clone())),
                None => Err(KiwiError::UnknownEnumValue { value: raw, def_name: d.name.clone() }),
            }
        },
        DefKind::Struct => {
            if z / 2 >= schema.defs.len() {
                return Err(KiwiError::EndlessNesting);
            }
            match decode_struct_fields(schema, tid, bb, z + 1) {
                Ok(fields) => Ok(FastVal::Obj(fields)),
                Err(e) => Err(e),
            }
        },
        DefKind::Message => {
            match decode_message_fields(schema, tid, bb, z) {
                Ok(fields) => Ok(FastVal::Obj(fields)),
                Err(e) => Err(e),
            }
        },
    }
}

/// Decode the fields of the struct `tid`, in declaration order; skipped fields leave nothing.
fn decode_struct_fields<'m>(schema: &Schema, tid: i32, bb: &mut ByteBuf<'m>, z: usize) -> (r: Result<Vec<(String, FastVal<'m>)>, KiwiError>)
    requires
        old(bb).wf(),
        0 < z <= nesting_budget(schema@),
        nesting_budget(schema@) < usize::MAX,
        0 <= tid < schema@.len(),
    ensures
        final(bb).wf(),
        final(bb).data == old(bb).data,
        final(bb).index >= old(bb).index,
        match dec_struct(schema@, old(bb).data@, tid, 0, old(bb).index as int, old(bb).index as int, z as int, Seq::empty()) {
            Ok((fs, p1)) => r is Ok && fields_val(r->Ok_0@) == fs && final(bb).index == p1,
            Err(e) => r is Err && r->Err_0@ == e,
        },
    decreases old(bb).data@.len() - old(bb).index, nesting_budget(schema@) - z, 5int,
{
    let d = &schema.defs[tid as usize];
    let ghost defs = schema@;
    let ghost s = bb.data@;
    let ghost dv = defs[tid as int];
    assert(dv == d@);
    let p0 = bb.index;
    let mut fields: Vec<(String, FastVal<'m>)> = Vec::new();
    let mut i: usize = 0;
    while i < d.fields.len()
        invariant
            bb.wf(),
            bb.data == old(bb).data,
            s == bb.data@,
            defs == schema@,
            p0 == old(bb).index,
            p0 <= bb.index,
            i <= d.fields@.len(),
            0 < z <= nesting_budget(defs),
            nesting_budget(defs) < usize::MAX,
            0 <= tid < defs.len(),
            dv == defs[tid as int],
            dv == d@,
            dec_struct(defs, s, tid, 0, p0 as int, p0 as int, z as int, Seq::empty())
                == dec_struct(defs, s, tid, i as int, p0 as int, bb.index as int, z as int, fields_val(fields@)),
        decreases d.fields@.len() - i,
    {
        let f = &d.fields[i];
        assert(dv.fields[i as int] == f@);
        let zf = if bb.index > p0 { 0 } else { z };
        let ghost pi = bb.index as int;
        let ghost acc = fields_val(fields@);
        let ghost step = dec_field(defs, s, f@, pi, zf as int);
        assert(dec_struct(defs, s, tid, i as int, p0 as int, pi, z as int, acc) == match step {
            Err(e) => Err(e),
            Ok((ov, p1)) => dec_struct(defs, s, tid, i + 1, p0 as int, p1, z as int, add_field(acc, f@.name, ov)),
        });
        match decode_field(schema, f, bb, zf) {
            Ok(Some(v)) => {
                let ghost old_fields = fields@;
                let name = f.name.clone();
                fields.push((name, v));
                proof {
                    lemma_fields_val_push(old_fields, (name, v));
                }
            },
            Ok(None) => {},
            Err(e) => {
                return Err(e);
            },
        }
        i = i + 1;
    }
    Ok(fields)
}

/// Decode the (id, value) pairs of the message `tid` up to its zero id.
fn decode_message_fields<'m>(schema: &Schema, tid: i32, bb: &mut ByteBuf<'m>, z: usize) -> (r: Result<Vec<(String, FastVal<'m>)>, KiwiError>)
    requires
        old(bb).wf(),
        z <= nesting_budget(schema@),
        nesting_budget(schema@) < usize::MAX,
        0 <= tid < schema@.len(),
    ensures
        final(bb).wf(),
        final(bb).data == old(bb).data,
        final(bb).index >= old(bb).index,
        match dec_msg(schema@, old(bb).data@, tid, old(bb).index as int, z as int, Seq::empty()) {
            Ok((fs, p1)) => r is Ok && fields_val(r->Ok_0@) == fs && final(bb).index == p1,
            Err(e) => r is Err && r->Err_0@ == e,
        },
    decreases old(bb).data@.len() - old(bb).index, nesting_budget(schema@) - z, 2int,
{
    let d = &schema.defs[tid as usize];
    let ghost defs = schema@;
    let ghost s = bb.data@;
    let ghost dv = defs[tid as int];
    assert(dv == d@);
    let p0 = bb.index;
    let mut fields: Vec<(String, FastVal<'m>)> = Vec::new();
    loop
        invariant
            bb.wf(),
            bb.data == old(bb).data,
            s == bb.data@,
            defs == schema@,
            p0 == old(bb).index,
            p0 <= bb.index,
            z <= nesting_budget(defs),
            nesting_budget(defs) < usize::MAX,
            0 <= tid < defs.len(),
            dv == defs[tid as int],
            dv == d@,
            dec_msg(defs, s, tid, p0 as int, z as int, Seq::empty())
                == dec_msg(defs, s, tid, bb.index as int, z as int, fields_val(fields@)),
        decreases s.len() - bb.index,
    {
        let ghost pi = bb.index as int;
        let ghost acc = fields_val(fields@);
        proof {
            lemma_varint_len_bounds(s, pi, 5);
        }
        let id = match bb.read_var_uint() {
            Ok(v) => v,
            Err(e) => {
                return Err(e);
            }
        };
        if id == 0 {
            return Ok(fields);
        }
        match d.field_index(id) {
            None => {
                return Err(KiwiError::UnknownField { id, message: d.name.clone() });
            },
            Some(k) => {
                let f = &d.fields[k];
                assert(dv.fields[k as int] == f@);
                let ghost p1 = bb.index as int;
                match decode_field(schema, f, bb, 0) {
                    Ok(Some(v)) => {
                        let ghost old_fields = fields@;
                        let name = f.name.clone();
                        fields.push((name, v));
                        proof {
                            lemma_fields_val_push(old_fields, (name, v));
                        }
                    },
                    Ok(None) => {},
                    Err(e) => {
                        return Err(e);
                    },
                }
            },
        }
    }
}

/// Decode one field: skipped (and `None`) unless its name is kept.
pub fn decode_field<'m>(schema: &Schema, field: &Field, bb: &mut ByteBuf<'m>, z: usize) -> (r: Result<Option<FastVal<'m>>, KiwiError>)
    requires
        old(bb).wf(),
        z <= nesting_budget(schema@),
        nesting_budget(schema@) < usize::MAX,
    ensures
        final(bb).wf(),
        final(bb).data == old(bb).data,
        final(bb).index >= old(bb).index,
        opt_res(r, final(bb).index as int, dec_field(schema@, old(bb).data@, field@, old(bb).index as int, z as int)),
    decreases old(bb).data@.len() - old(bb).index, nesting_budget(schema@) - z, 4int,
{
    if !keep_field(field.name.as_str()) {
        return match skip_value(schema, field.type_id, field.is_array, bb, z) {
            Ok(()) => Ok(None),
            Err(e) => Err(e),
        };
    }
    if !field.is_array && field.type_id >= 0 {
        return match decode_defined(schema, field.type_id, bb, z) {
            Ok(v) => Ok(Some(v)),
            Err(e) => Err(e),
        };
    }
    if !field.is_array {
        return match read_primitive(field.type_id, bb) {
            Ok(v) => Ok(Some(v)),
            Err(e) => Err(e),
        };
    }
    let ghost s = bb.data@;
    let ghost p = bb.index as int;
    proof {
        lemma_varint_len_bounds(s, p, 5);
    }
    let len = match bb.read_var_uint() {
        Ok(v) => v,
        Err(e) => {
            return Err(e);
        }
    };
    if field.type_id == TYPE_BYTE {
        return match bb.take_bytes(len as usize) {
            Ok(b) => Ok(Some(FastVal::Bytes(b))),
            Err(e) => Err(e),
        };
    }
    match decode_items(schema, field.type_id, bb, len) {
        Ok(arr) => Ok(Some(FastVal::Arr(arr))),
        Err(e) => Err(e),
    }
}

/// Decode `count` array items of type `tid`.
fn decode_items<'m>(schema: &Schema, tid: i32, bb: &mut ByteBuf<'m>, count: u32) -> (r: Result<Vec<FastVal<'m>>, KiwiError>)
    requires
        old(bb).wf(),
        nesting_budget(schema@) < usize::MAX,
    ensures
        final(bb).wf(),
        final(bb).data == old(bb).data,
        final(bb).index >= old(bb).index,
        match dec_items(schema@, old(bb).data@, tid, 0, count as int, old(bb).index as int, old(bb).index as int, Seq::empty()) {
            Ok((vs, p2)) => r is Ok && vals(r->Ok_0@) == vs && final(bb).index == p2,
            Err(e) => r is Err && r->Err_0@ == e,
        },
    decreases old(bb).data@.len() - old(bb).index, nesting_budget(schema@), 4int,
{
    let ghost s = bb.data@;
    let p1 = bb.index;
    let mut arr: Vec<FastVal<'m>> = Vec::new();
    let mut k: u32 = 0;
    while k < count
        invariant
            bb.wf(),
            bb.data == old(bb).data,
            s == bb.data@,
            p1 == old(bb).index,
            p1 <= bb.index,
            k <= count,
            nesting_budget(schema@) < usize::MAX,
            dec_items(schema@, s, tid, 0, count as int, p1 as int, p1 as int, Seq::empty())
                == dec_items(schema@, s, tid, k as int, count as int, p1 as int, bb.index as int, vals(arr@)),
        decreases count - k,
    {
        let ghost pi = bb.index as int;
        let ghost acc = vals(arr@);
        let ghost step = if tid >= 0 { dec_defined(schema@, s, tid, pi, 0) } else { prim_value(tid, s, pi) };
        assert(dec_items(schema@, s, tid, k as int, count as int, p1 as int, pi, acc) == match step {
            Err(e) => Err(e),
            Ok((v, p2)) => dec_items(schema@, s, tid, k + 1, count as int, p1 as int, p2, acc.push(v)),
        });
        let r = if tid >= 0 { decode_defined(schema, tid, bb, 0) } else { read_primitive(tid, bb) };
        match r {
            Ok(v) => {
                let ghost old_arr = arr@;
                arr.push(v);
                proof {
                    lemma_vals_push(old_arr, v);
                }
            },
            Err(e) => {
                return Err(e);
            },
        }
        k = k + 1;
    }
    Ok(arr)
}

/// Advance past a value of type `tid` (an array of them when `is_array`)
/// without building anything.
pub fn skip_value(schema: &Schema, tid: i32, is_array: bool, bb: &mut ByteBuf, z: usize) -> (r: Result<(), KiwiError>)
    requires
        old(bb).wf(),
        z <= nesting_budget(schema@),
        nesting_budget(schema@) < usize::MAX,
    ensures
        final(bb).wf(),
        final(bb).data == old(bb).data,
        final(bb).index >= old(bb).index,
        skip_res(r, final(bb).index as int, skip_val(schema@, old(bb).data@, tid, is_array, old(bb).index as int, z as int)),
    decreases old(bb).data@.len() - old(bb).index, nesting_budget(schema@) - z, 3int,
{
    if tid < 0 {
        return skip_primitive(tid, is_array, bb);
    }
    if tid as usize >= schema.defs.len() {
        return Err(KiwiError::BadTypeId(tid));
    }
    if !is_array {
        return skip_defined(schema, tid, bb, z);
    }
    let ghost s = bb.data@;
    let ghost p = bb.index as int;
    proof {
        lemma_varint_len_bounds(s, p, 5);
    }
    let count = match bb.read_var_uint() {
        Ok(v) => v,
        Err(e) => {
            return Err(e);
        }
    };
    skip_defined_items(schema, tid, bb, count)
}

/// Advance past `count` values of the definition `tid`.
fn skip_defined_items(schema: &Schema, tid: i32, bb: &mut ByteBuf, count: u32) -> (r: Result<(), KiwiError>)
    requires
        old(bb).wf(),
        nesting_budget(schema@) < usize::MAX,
        0 <= tid < schema@.len(),
    ensures
        final(bb).wf(),
        final(bb).data == old(bb).data,
        final(bb).index >= old(bb).index,
        skip_res(r, final(bb).index as int, skip_items(schema@, old(bb).data@, tid, 0, count as int, old(bb).index as int, old(bb).index as int)),
    decreases old(bb).data@.len() - old(bb).index, nesting_budget(schema@), 3int,
{
    let ghost s = bb.data@;
    let p1 = bb.index;
    let mut k: u32 = 0;
    while k < count
        invariant
            bb.wf(),
            bb.data == old(bb).data,
            s == bb.data@,
            p1 == old(bb).index,
            p1 <= bb.index,
            k <= count,
            nesting_budget(schema@) < usize::MAX,
            0 <= tid < schema@.len(),
            skip_items(schema@, s, tid, 0, count as int, p1 as int, p1 as int)
                == skip_items(schema@, s, tid, k as int, count as int, p1 as int, bb.index as int),
        decreases count - k,
    {
        let ghost pi = bb.index as int;
        assert(skip_items(schema@, s, tid, k as int, count as int, p1 as int, pi) == match skip_one(schema@, s, tid, pi, 0) {
            Err(e) => Err(e),
            Ok(p2) => skip_items(schema@, s, tid, k + 1, count as int, p1 as int, p2),
        });
        match skip_defined(schema, tid, bb, 0) {
            Ok(()) => {},
            Err(e) => {
                return Err(e);
            },
        }
        k = k + 1;
    }
    Ok(())
}

/// Advance past one value of the definition `tid`.
fn skip_defined(schema: &Schema, tid: i32, bb: &mut ByteBuf, z: usize) -> (r: Result<(), KiwiError>)
    requires
        old(bb).wf(),
        z <= nesting_budget(schema@),
        nesting_budget(schema@) < usize::MAX,
        0 <= tid < schema@.len(),
    ensures
        final(bb).wf(),
        final(bb).data == old(bb).data,
        final(bb).index >= old(bb).index,
        skip_res(r, final(bb).index as int, skip_one(schema@, old(bb).data@, tid, old(bb).index as int, z as int)),
    decreases old(bb).data@.len() - old(bb).index, nesting_budget(schema@) - z, 2int,
{
    let d = &schema.defs[tid as usize];
    assert(schema@[tid as int] == d@);
    match d.kind {
        DefKind::Enum => match bb.read_var_uint() {
            Ok(_) => Ok(()),
            Err(e) => Err(e),
        },
        DefKind::Struct => {
            if z / 2 >= schema.defs.len() {
                return Err(KiwiError::EndlessNesting);
            }
            skip_struct_fields(schema, tid, bb, z + 1)
        },
        DefKind::Message => skip_message_fields(schema, tid, bb, z),
    }
}

/// Advance past the fields of the struct `tid`.
fn skip_struct_fields(schema: &Schema, tid: i32, bb: &mut ByteBuf, z: usize) -> (r: Result<(), KiwiError>)
    requires
        old(bb).wf(),
        0 < z <= nesting_budget(schema@),
        nesting_budget(schema@) < usize::MAX,
        0 <= tid < schema@.len(),
    ensures
        final(bb).wf(),
        final(bb).data == old(bb).data,
        final(bb).index >= old(bb).index,
        skip_res(r, final(bb).index as int, skip_struct(schema@, old(bb).data@, tid, 0, old(bb).index as int, old(bb).index as int, z as int)),
    decreases old(bb).data@.len() - old(bb).index, nesting_budget(schema@) - z, 5int,
{
    let d = &schema.defs[tid as usize];
    let ghost defs = schema@;
    let ghost s = bb.data@;
    let ghost dv = defs[tid as int];
    assert(dv == d@);
    let p0 = bb.index;
    let mut i: usize = 0;
    while i < d.fields.len()
        invariant
            bb.wf(),
            bb.data == old(bb).data,
            s == bb.data@,
            defs == schema@,
            p0 == old(bb).index,
            p0 <= bb.index,
            i <= d.fields@.len(),
            0 < z <= nesting_budget(defs),
            nesting_budget(defs) < usize::MAX,
            0 <= tid < defs.len(),
            dv == defs[tid as int],
            dv == d@,
            skip_struct(defs, s, tid, 0, p0 as int, p0 as int, z as int)
                == skip_struct(defs, s, tid, i as int, p0 as int, bb.index as int, z as int),
        decreases d.fields@.len() - i,
    {
        let f = &d.fields[i];
        assert(dv.fields[i as int] == f@);
        let zf = if bb.index > p0 { 0 } else { z };
        let ghost pi = bb.index as int;
        assert(skip_struct(defs, s, tid, i as int, p0 as int, pi, z as int) == match skip_val(defs, s, f@.type_id, f@.is_array, pi, zf as int) {
            Err(e) => Err(e),
            Ok(p2) => skip_struct(defs, s, tid, i + 1, p0 as int, p2, z as int),
        });
        match skip_value(schema, f.type_id, f.is_array, bb, zf) {
            Ok(()) => {},
            Err(e) => {
                return Err(e);
            },
        }
        i = i + 1;
    }
    Ok(())
}

/// Advance past the (id, value) pairs of the message `tid` and its zero id.
fn skip_message_fields(schema: &Schema, tid: i32, bb: &mut ByteBuf, z: usize) -> (r: Result<(), KiwiError>)
    requires
        old(bb).wf(),
        z <= nesting_budget(schema@),
        nesting_budget(schema@) < usize::MAX,
        0 <= tid < schema@.len(),
    ensures
        final(bb).wf(),
        final(bb).data == old(bb).data,
        final(bb).index >= old(bb).index,
        skip_res(r, final(bb).index as int, skip_msg(schema@, old(bb).data@, tid, old(bb).index as int, z as int)),
    decreases old(bb).data@.len() - old(bb).index, nesting_budget(schema@) - z, 1int,
{
    let d = &schema.defs[tid as usize];
    let ghost defs = schema@;
    let ghost s = bb.data@;
    let ghost dv = defs[tid as int];
    assert(dv == d@);
    let p0 = bb.index;
    loop
        invariant
            bb.wf(),
            bb.data == old(bb).data,
            s == bb.data@,
            defs == schema@,
            p0 == old(bb).index,
            p0 <= bb.index,
            z <= nesting_budget(defs),
            nesting_budget(defs) < usize::MAX,
            0 <= tid < defs.len(),
            dv == defs[tid as int],
            dv == d@,
            skip_msg(defs, s, tid, p0 as int, z as int) == skip_msg(defs, s, tid, bb.index as int, z as int),
        decreases s.len() - bb.index,
    {
        let ghost pi = bb.index as int;
        proof {
            lemma_varint_len_bounds(s, pi, 5);
        }
        let id = match bb.read_var_uint() {
            Ok(v) => v,
            Err(e) => {
                return Err(e);
            }
        };
        if id == 0 {
            return Ok(());
        }
        match d.field_index(id) {
            None => {
                return Err(KiwiError::UnknownFieldWhileSkipping { id, message: d.name.clone() });
            },
            Some(k) => {
                let f = &d.fields[k];
                assert(dv.fields[k as int] == f@);
                let ghost p1 = bb.index as int;
                assert(skip_msg(defs, s, tid, pi, z as int) == match skip_val(defs, s, f@.type_id, f@.is_array, p1, 0) {
                    Err(e) => Err(e),
                    Ok(p2) => if !(p1 <= p2 <= s.len()) { Err(KErr::UnexpectedEnd) } else { skip_msg(defs, s, tid, p2, z as int) },
                });
                match skip_value(schema, f.type_id, f.is_array, bb, 0) {
                    Ok(()) => {},
                    Err(e) => {
                        return Err(e);
                    },
                }
            },
        }
    }
}

/// Decode `message_bytes` against `schema`, returning the root value: a value
/// of the definition named `Message`, or else of the first definition.
pub fn decode_root<'m>(schema: &Schema, message_bytes: &'m [u8]) -> (r: Result<FastVal<'m>, KiwiError>)
    requires
        schema@.len() <= i32::MAX,
    ensures
        match decode_message(schema@, message_bytes@) {
            Ok(v) => r is Ok && r->Ok_0.val() == v,
            Err(e) => r is Err && r->Err_0@ == e,
        },
{
    let root_id: usize = match schema.def_index("Message") {
        Some(i) => i,
        None => {
            if schema.defs.len() == 0 {
                return Err(KiwiError::NoRootType);
            }
            0
        },
    };
    let mut bb = ByteBuf::new(message_bytes);
    decode_defined(schema, root_id as i32, &mut bb, 0)
}


/// The value of the first field named `name`.
pub open spec fn kget_in(fs: Seq<(Seq<char>, KValue)>, name: Seq<char>) -> Option<KValue>
    decreases fs.len(),
{
    if fs.len() == 0 {
        None
    } else if fs[0].0 == name {
        Some(fs[0].1)
    } else {
        kget_in(fs.drop_first(), name)
    }
}

/// Object field lookup: the first field named `name` of an object.
pub open spec fn kget(v: KValue, name: Seq<char>) -> Option<KValue> {
    match v {
        KValue::Obj(fs) => kget_in(fs, name),
        _ => None,
    }
}

/// String-ish view: owned strings and enum variant names.
pub open spec fn kstr(v: KValue) -> Option<Seq<char>> {
    match v {
        KValue::Str(s) => Some(s),
        KValue::Enum(s) => Some(s),
        _ => None,
    }
}

/// Numeric view of the numeric variants.
pub open spec fn knum(v: KValue) -> Option<Number> {
    match v {
        KValue::Int(i) => Some(Number::Int(i)),
        KValue::UInt(u) => Some(Number::UInt(u)),
        KValue::Float(f) => Some(Number::Float(f)),
        KValue::Int64(i) => Some(Number::Int64(i)),
        KValue::UInt64(u) => Some(Number::UInt64(u)),
        _ => None,
    }
}

/// Unsigned view: unsigned values, and signed values that are not negative.
pub open spec fn ku64(v: KValue) -> Option<u64> {
    match v {
        KValue::UInt(u) => Some(u as u64),
        KValue::Int(i) => if i >= 0 { Some(i as u64) } else { None },
        KValue::Int64(i) => if i >= 0 { Some(i as u64) } else { None },
        KValue::UInt64(u) => Some(u),
        _ => None,
    }
}

pub open spec fn kbool(v: KValue) -> Option<bool> {
    match v {
        KValue::Bool(b) => Some(b),
        _ => None,
    }
}

pub open spec fn karr(v: KValue) -> Option<Seq<KValue>> {
    match v {
        KValue::Arr(a) => Some(a),
        _ => None,
    }
}

pub open spec fn kbytes(v: KValue) -> Option<Seq<u8>> {
    match v {
        KValue::Bytes(b) => Some(b),
        _ => None,
    }
}

pub proof fn lemma_vals_index<'m>(s: Seq<FastVal<'m>>)
    ensures
        vals(s).len() == s.len(),
        forall|i: int| 0 <= i < s.len() ==> #[trigger] vals(s)[i] == s[i].val(),
    decreases s.len(),
{
    if s.len() > 0 {
        lemma_vals_index(s.subrange(0, s.len() - 1));
    }
}

pub proof fn lemma_fields_val_index<'m>(s: Seq<(String, FastVal<'m>)>)
    ensures
        fields_val(s).len() == s.len(),
        forall|i: int| 0 <= i < s.len() ==> #[trigger] fields_val(s)[i] == (s[i].0@, s[i].1.val()),
    decreases s.len(),
{
    if s.len() > 0 {
        lemma_fields_val_index(s.subrange(0, s.len() - 1));
    }
}

proof fn lemma_kget_in_at(fs: Seq<(Seq<char>, KValue)>, name: Seq<char>, i: int)
    requires
        0 <= i <= fs.len(),
        forall|j: int| 0 <= j < i ==> fs[j].0 != name,
    ensures
        i < fs.len() && fs[i].0 == name ==> kget_in(fs, name) == Some(fs[i].1),
        i == fs.len() ==> kget_in(fs, name) is None,
    decreases i,
{
    if i > 0 {
        lemma_kget_in_at(fs.drop_first(), name, i - 1);
    }
}

impl<'m> FastVal<'m> {
    /// Object field lookup: the first field named `name`.
    pub fn get(&self, name: &str) -> (r: Option<&FastVal<'m>>)
        ensures
            match kget(self.val(), name@) {
                Some(v) => r is Some && r->0.val() == v,
                None => r is None,
            },
    {
        match self {
            FastVal::Obj(fields) => {
                proof {
                    lemma_fields_val_index(fields@);
                }
                let ghost fs = fields_val(fields@);
                assert(self.val() == KValue::Obj(fs));
                let mut i: usize = 0;
                while i < fields.len()
                    invariant
                        self.val() == KValue::Obj(fs),
                        fs == fields_val(fields@),
                        fs.len() == fields@.len(),
                        forall|k: int| 0 <= k < fields@.len() ==> #[trigger] fs[k] == (fields@[k].0@, fields@[k].1.val()),
                        i <= fields@.len(),
                        forall|j: int| 0 <= j < i ==> fs[j].0 != name@,
                    decreases fields@.len() - i,
                {
                    if str_eq(fields[i].0.as_str(), name) {
                        proof {
                            lemma_kget_in_at(fs, name@, i as int);
                            assert(fs[i as int] == (fields@[i as int].0@, fields@[i as int].1.val()));
                        }
                        return Some(&fields[i].1);
                    }
                    i = i + 1;
                }
                proof {
                    lemma_kget_in_at(fs, name@, i as int);
                }
                None
            },
            _ => None,
        }
    }

    pub fn as_str(&self) -> (r: Option<&str>)
        ensures
            match kstr(self.val()) {
                Some(v) => r is Some && r->0@ == v,
                None => r is None,
            },
    {
        match self {
            FastVal::Str(s) => Some(s.as_str()),
            FastVal::Enum(v) => Some(v.as_str()),
            _ => None,
        }
    }

    /// The numeric value, for the numeric variants.
    pub fn as_number(&self) -> (r: Option<Number>)
        ensures
            r == knum(self.val()),
    {
        match self {
            FastVal::Int(i) => Some(Number::Int(*i)),
            FastVal::UInt(u) => Some(Number::UInt(*u)),
            FastVal::Float(f) => Some(Number::Float(*f)),
            FastVal::Int64(i) => Some(Number::Int64(*i)),
            FastVal::UInt64(u) => Some(Number::UInt64(*u)),
            _ => None,
        }
    }

    pub fn as_u64(&self) -> (r: Option<u64>)
        ensures
            r == ku64(self.val()),
    {
        match self {
            FastVal::UInt(u) => Some(*u as u64),
            FastVal::Int(i) => if *i >= 0 { Some(*i as u64) } else { None },
            FastVal::Int64(i) => if *i >= 0 { Some(*i as u64) } else { None },
            FastVal::UInt64(u) => Some(*u),
            _ => None,
        }
    }

    pub fn as_bool(&self) -> (r: Option<bool>)
        ensures
            r == kbool(self.val()),
    {
        match self {
            FastVal::Bool(b) => Some(*b),
            _ => None,
        }
    }

    pub fn as_array(&self) -> (r: Option<&Vec<FastVal<'m>>>)
        ensures
            match karr(self.val()) {
                Some(a) => r is Some && vals(r->0@) == a,
                None => r is None,
            },
    {
        match self {
            FastVal::Arr(a) => Some(a),
            _ => None,
        }
    }

    pub fn as_bytes(&self) -> (r: Option<&'m [u8]>)
        ensures
            match kbytes(self.val()) {
                Some(b) => r is Some && r->0@ == b,
                None => r is None,
            },
    {
        match self {
            FastVal::Bytes(b) => Some(*b),
            _ => None,
        }
    }
}

/// The field names the document builder consumes; every other field is
/// skipped during decoding rather than built.
pub open spec fn is_kept(name: Seq<char>) -> bool {
    ||| name == "nodeChanges"@
    ||| name == "blobs"@
    ||| name == "bytes"@
    ||| name == "guid"@
    ||| name == "sessionID"@
    ||| name == "localID"@
    ||| name == "parentIndex"@
    ||| name == "position"@
    ||| name == "type"@
    ||| name == "phase"@
    ||| name == "name"@
    ||| name == "visible"@
    ||| name == "opacity"@
    ||| name == "locked"@
    ||| name == "size"@
    ||| name == "x"@
    ||| name == "y"@
    ||| name == "transform"@
    ||| name == "m00"@
    ||| name == "m01"@
    ||| name == "m02"@
    ||| name == "m10"@
    ||| name == "m11"@
    ||| name == "m12"@
    ||| name == "cornerRadius"@
    ||| name == "rectangleTopLeftCornerRadius"@
    ||| name == "rectangleTopRightCornerRadius"@
    ||| name == "rectangleBottomRightCornerRadius"@
    ||| name == "rectangleBottomLeftCornerRadius"@
    ||| name == "resizeToFit"@
    ||| name == "frameMaskDisabled"@
    ||| name == "blendMode"@
    ||| name == "strokeWeight"@
    ||| name == "strokeAlign"@
    ||| name == "fillPaints"@
    ||| name == "backgroundPaints"@
    ||| name == "strokePaints"@
    ||| name == "stops"@
    ||| name == "color"@
    ||| name == "r"@
    ||| name == "g"@
    ||| name == "b"@
    ||| name == "a"@
    ||| name == "image"@
    ||| name == "hash"@
    ||| name == "effects"@
    ||| name == "offset"@
    ||| name == "radius"@
    ||| name == "spread"@
    ||| name == "fillGeometry"@
    ||| name == "strokeGeometry"@
    ||| name == "windingRule"@
    ||| name == "commandsBlob"@
    ||| name == "styleID"@
    ||| name == "vectorData"@
    ||| name == "vectorNetworkBlob"@
    ||| name == "normalizedSize"@
    ||| name == "textData"@
    ||| name == "characters"@
    ||| name == "fontFamily"@
    ||| name == "fontWeight"@
    ||| name == "fontSize"@
    ||| name == "letterSpacing"@
    ||| name == "lineHeight"@
    ||| name == "fills"@
}

/// Whether the field `name` is kept.
pub fn keep_field(name: &str) -> (r: bool)
    ensures
        r == is_kept(name@),
{
    str_eq(name, "nodeChanges")
        || str_eq(name, "blobs")
        || str_eq(name, "bytes")
        || str_eq(name, "guid")
        || str_eq(name, "sessionID")
        || str_eq(name, "localID")
        || str_eq(name, "parentIndex")
        || str_eq(name, "position")
        || str_eq(name, "type")
        || str_eq(name, "phase")
        || str_eq(name, "name")
        || str_eq(name, "visible")
        || str_eq(name, "opacity")
        || str_eq(name, "locked")
        || str_eq(name, "size")
        || str_eq(name, "x")
        || str_eq(name, "y")
        || str_eq(name, "transform")
        || str_eq(name, "m00")
        || str_eq(name, "m01")
        || str_eq(name, "m02")
        || str_eq(name, "m10")
        || str_eq(name, "m11")
        || str_eq(name, "m12")
        || str_eq(name, "cornerRadius")
        || str_eq(name, "rectangleTopLeftCornerRadius")
        || str_eq(name, "rectangleTopRightCornerRadius")
        || str_eq(name, "rectangleBottomRightCornerRadius")
        || str_eq(name, "rectangleBottomLeftCornerRadius")
        || str_eq(name, "resizeToFit")
        || str_eq(name, "frameMaskDisabled")
        || str_eq(name, "blendMode")
        || str_eq(name, "strokeWeight")
        || str_eq(name, "strokeAlign")
        || str_eq(name, "fillPaints")
        || str_eq(name, "backgroundPaints")
        || str_eq(name, "strokePaints")
        || str_eq(name, "stops")
        || str_eq(name, "color")
        || str_eq(name, "r")
        || str_eq(name, "g")
        || str_eq(name, "b")
        || str_eq(name, "a")
        || str_eq(name, "image")
        || str_eq(name, "hash")
        || str_eq(name, "effects")
        || str_eq(name, "offset")
        || str_eq(name, "radius")
        || str_eq(name, "spread")
        || str_eq(name, "fillGeometry")
        || str_eq(name, "strokeGeometry")
        || str_eq(name, "windingRule")
        || str_eq(name, "commandsBlob")
        || str_eq(name, "styleID")
        || str_eq(name, "vectorData")
        || str_eq(name, "vectorNetworkBlob")
        || str_eq(name, "normalizedSize")
        || str_eq(name, "textData")
        || str_eq(name, "characters")
        || str_eq(name, "fontFamily")
        || str_eq(name, "fontWeight")
        || str_eq(name, "fontSize")
        || str_eq(name, "letterSpacing")
        || str_eq(name, "lineHeight")
        || str_eq(name, "fills")
}

} // verus!
