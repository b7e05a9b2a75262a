//! Extractors for typed fields from decoded Kiwi values.

use vstd::prelude::*;
use crate::fastkiwi::{FastVal, KValue, kget, kstr, knum, ku64, kbool, karr, kbytes, vals, lemma_vals_index};
use crate::geometry::{
    GeometryPath, GeometryPathView, WindingRule, commands_blob, decode_commands_blob, decode_vector_blob, vector_blob,
};
use crate::types::{
    Color, ColorStop, CornerRadii, Effect, EffectType, Matrix, NodeId, NodeType, Number, Paint, PaintType, PaintView,
    TextData, TextDataView, Vec2, VectorGeometry, VectorGeometryView, node_type_of, opt_str_view, paints_view,
    paths_view, F32_ONE, F32_ZERO, F32_SIXTEEN, F32_FOUR_HUNDRED,
};
use crate::text::{str_eq, owned, ends_with};
use crate::binary::{from_utf8_lossy, utf8_lossy};

verus! {

/// The number in field `name` of `obj`.
pub open spec fn num_of(obj: KValue, name: Seq<char>) -> Option<Number> {
    match kget(obj, name) {
        Some(v) => knum(v),
        None => None,
    }
}

/// The string (or enum name) in field `name` of `obj`.
pub open spec fn str_of(obj: KValue, name: Seq<char>) -> Option<Seq<char>> {
    match kget(obj, name) {
        Some(v) => kstr(v),
        None => None,
    }
}

pub open spec fn bool_of(obj: KValue, name: Seq<char>) -> Option<bool> {
    match kget(obj, name) {
        Some(v) => kbool(v),
        None => None,
    }
}

pub open spec fn u64_of(obj: KValue, name: Seq<char>) -> Option<u64> {
    match kget(obj, name) {
        Some(v) => ku64(v),
        None => None,
    }
}

pub open spec fn arr_of(obj: KValue, name: Seq<char>) -> Option<Seq<KValue>> {
    match kget(obj, name) {
        Some(v) => karr(v),
        None => None,
    }
}

pub open spec fn num_or(o: Option<Number>, d: Number) -> Number {
    match o {
        Some(n) => n,
        None => d,
    }
}

pub open spec fn bool_or(o: Option<bool>, d: bool) -> bool {
    match o {
        Some(b) => b,
        None => d,
    }
}

/// A number that is greater than zero once read as `f32`.
pub open spec fn is_positive(n: Number) -> bool {
    match n {
        Number::Int(i) => i > 0,
        Number::UInt(u) => u > 0,
        Number::Int64(i) => i > 0,
        Number::UInt64(u) => u > 0,
        Number::Float(b) => 0 < b <= 0x7F80_0000,
    }
}

/// Object field lookup on a decoded value.
pub fn get<'a, 'm>(v: &'a FastVal<'m>, name: &str) -> (r: Option<&'a FastVal<'m>>)
    ensures
        match kget(v.val(), name@) {
            Some(f) => r is Some && r->0.val() == f,
            None => r is None,
        },
{
    v.get(name)
}

/// A string-ish value (string or enum variant) as text.
pub fn as_str_of_v<'a, 'm>(v: &'a FastVal<'m>) -> (r: Option<&'a str>)
    ensures
        match kstr(v.val()) {
            Some(s) => r is Some && r->0@ == s,
            None => r is None,
        },
{
    v.as_str()
}

/// A bool value.
pub fn as_bool_v(v: &FastVal) -> (r: Option<bool>)
    ensures
        r == kbool(v.val()),
{
    v.as_bool()
}

pub fn num_field(obj: &FastVal, name: &str) -> (r: Option<Number>)
    ensures
        r == num_of(obj.val(), name@),
{
    match obj.get(name) {
        Some(v) => v.as_number(),
        None => None,
    }
}

pub fn bool_field(obj: &FastVal, name: &str) -> (r: Option<bool>)
    ensures
        r == bool_of(obj.val(), name@),
{
    match obj.get(name) {
        Some(v) => v.as_bool(),
        None => None,
    }
}

pub fn u64_field(obj: &FastVal, name: &str) -> (r: Option<u64>)
    ensures
        r == u64_of(obj.val(), name@),
{
    match obj.get(name) {
        Some(v) => v.as_u64(),
        None => None,
    }
}

/// Field lookup returning a string-ish value (owned string or enum variant).
pub fn as_str_of<'a, 'm>(obj: &'a FastVal<'m>, name: &str) -> (r: Option<&'a str>)
    ensures
        match str_of(obj.val(), name@) {
            Some(s) => r is Some && r->0@ == s,
            None => r is None,
        },
{
    match obj.get(name) {
        Some(v) => v.as_str(),
        None => None,
    }
}

pub fn as_array_ref<'a, 'm>(v: &'a FastVal<'m>) -> (r: Option<&'a Vec<FastVal<'m>>>)
    ensures
        match karr(v.val()) {
            Some(a) => r is Some && vals(r->0@) == a,
            None => r is None,
        },
{
    v.as_array()
}

/// The node id stored as `{ sessionID, localID }` in field `name`.
pub open spec fn guid_of(obj: KValue, name: Seq<char>) -> Option<NodeId> {
    match kget(obj, name) {
        None => None,
        Some(g) => match (u64_of(g, "sessionID"@), u64_of(g, "localID"@)) {
            (Some(s), Some(l)) => Some(NodeId { session_id: s as u32, local_id: l as u32 }),
            _ => None,
        },
    }
}

pub fn get_guid(obj: &FastVal, name: &str) -> (r: Option<NodeId>)
    ensures
        r == guid_of(obj.val(), name@),
{
    let g = obj.get(name)?;
    let sid = u64_field(g, "sessionID")?;
    let lid = u64_field(g, "localID")?;
    Some(NodeId::new(sid as u32, lid as u32))
}

/// The `{ x, y }` pair in field `name`.
pub open spec fn vector_of(obj: KValue, name: Seq<char>) -> Option<Vec2> {
    match kget(obj, name) {
        None => None,
        Some(v) => match (num_of(v, "x"@), num_of(v, "y"@)) {
            (Some(x), Some(y)) => Some(Vec2 { x, y }),
            _ => None,
        },
    }
}

pub fn get_vector(obj: &FastVal, name: &str) -> (r: Option<Vec2>)
    ensures
        r == vector_of(obj.val(), name@),
{
    let v = obj.get(name)?;
    let x = num_field(v, "x")?;
    let y = num_field(v, "y")?;
    Some(Vec2::new(x, y))
}

/// The `{ r, g, b, a }` color in field `name`; alpha defaults to 1.
pub open spec fn color_of(obj: KValue, name: Seq<char>) -> Option<Color> {
    match kget(obj, name) {
        None => None,
        Some(c) => match (num_of(c, "r"@), num_of(c, "g"@), num_of(c, "b"@)) {
            (Some(r), Some(g), Some(b)) => Some(Color { r, g, b, a: num_or(num_of(c, "a"@), Number::Float(F32_ONE)) }),
            _ => None,
        },
    }
}

pub fn get_color(obj: &FastVal, name: &str) -> (r: Option<Color>)
    ensures
        r == color_of(obj.val(), name@),
{
    let c = obj.get(name)?;
    let r = num_field(c, "r")?;
    let g = num_field(c, "g")?;
    let b = num_field(c, "b")?;
    let a = match num_field(c, "a") {
        Some(a) => a,
        None => Number::Float(F32_ONE),
    };
    Some(Color { r, g, b, a })
}

/// The affine transform in field `name`: all six entries are required.
pub open spec fn matrix_of(obj: KValue, name: Seq<char>) -> Option<Matrix> {
    match kget(obj, name) {
        None => None,
        Some(m) => match (num_of(m, "m00"@), num_of(m, "m01"@), num_of(m, "m02"@), num_of(m, "m10"@),
            num_of(m, "m11"@), num_of(m, "m12"@)) {
            (Some(m00), Some(m01), Some(m02), Some(m10), Some(m11), Some(m12)) =>
                Some(Matrix { m00, m01, m02, m10, m11, m12 }),
            _ => None,
        },
    }
}

/// `n` is the number stored in field `name` of the object `obj`.
pub open spec fn field_number_is(obj: KValue, name: Seq<char>, n: Number) -> bool {
    kget(obj, name) matches Some(v) && knum(v) == Some(n)
}

/// A vector's `x` and `y` are the numbers under its `x` and `y` fields.
pub proof fn law_vector_fields(obj: KValue, name: Seq<char>)
    ensures
        vector_of(obj, name) matches Some(v) ==> (kget(obj, name) matches Some(t) && field_number_is(t, "x"@, v.x)
            && field_number_is(t, "y"@, v.y)),
{
}

/// A colour's channels are the numbers under its `r`, `g`, `b` fields, and
/// `a` when that field holds a number (fully opaque otherwise).
pub proof fn law_color_fields(obj: KValue, name: Seq<char>)
    ensures
        color_of(obj, name) matches Some(c) ==> (kget(obj, name) matches Some(t) && {
            &&& field_number_is(t, "r"@, c.r)
            &&& field_number_is(t, "g"@, c.g)
            &&& field_number_is(t, "b"@, c.b)
            &&& (field_number_is(t, "a"@, c.a) || (num_of(t, "a"@) is None && c.a == Number::Float(F32_ONE)))
        }),
{
}

/// Each entry of a transform is the number under the field of the same
/// name, `m02` and `m12` (the translation) included.
pub proof fn law_matrix_fields(obj: KValue, name: Seq<char>)
    ensures
        matrix_of(obj, name) matches Some(m) ==> (kget(obj, name) matches Some(t) && {
            &&& field_number_is(t, "m00"@, m.m00)
            &&& field_number_is(t, "m01"@, m.m01)
            &&& field_number_is(t, "m02"@, m.m02)
            &&& field_number_is(t, "m10"@, m.m10)
            &&& field_number_is(t, "m11"@, m.m11)
            &&& field_number_is(t, "m12"@, m.m12)
        }),
{
}

/// A transform whose object holds all six numbers is read, entry for entry.
pub proof fn law_matrix_read(
    obj: KValue,
    name: Seq<char>,
    t: KValue,
    m00: Number,
    m01: Number,
    m02: Number,
    m10: Number,
    m11: Number,
    m12: Number,
)
    requires
        kget(obj, name) == Some(t),
        field_number_is(t, "m00"@, m00),
        field_number_is(t, "m01"@, m01),
        field_number_is(t, "m02"@, m02),
        field_number_is(t, "m10"@, m10),
        field_number_is(t, "m11"@, m11),
        field_number_is(t, "m12"@, m12),
    ensures
        matrix_of(obj, name) == Some(Matrix { m00, m01, m02, m10, m11, m12 }),
{
}

pub fn get_matrix(obj: &FastVal, name: &str) -> (r: Option<Matrix>)
    ensures
        r == matrix_of(obj.val(), name@),
{
    let m = obj.get(name)?;
    let m00 = num_field(m, "m00")?;
    let m01 = num_field(m, "m01")?;
    let m02 = num_field(m, "m02")?;
    let m10 = num_field(m, "m10")?;
    let m11 = num_field(m, "m11")?;
    let m12 = num_field(m, "m12")?;
    Some(Matrix { m00, m01, m02, m10, m11, m12 })
}

/// The node type named by the `type` field; `Unknown` when absent or unrecognised.
pub open spec fn node_type_field(obj: KValue) -> NodeType {
    match str_of(obj, "type"@) {
        Some(s) => node_type_of(s),
        None => NodeType::Unknown,
    }
}

pub fn get_node_type(obj: &FastVal) -> (r: NodeType)
    ensures
        r == node_type_field(obj.val()),
{
    match as_str_of(obj, "type") {
        Some(s) => NodeType::from_str(s),
        None => NodeType::Unknown,
    }
}

/// Per-corner radii, each defaulting to `cornerRadius` (itself defaulting to 0);
/// present only when some corner is greater than zero.
pub open spec fn corner_radii_of(obj: KValue) -> Option<CornerRadii> {
    let fallback = num_or(num_of(obj, "cornerRadius"@), Number::Float(F32_ZERO));
    let radii = CornerRadii {
        top_left: num_or(num_of(obj, "rectangleTopLeftCornerRadius"@), fallback),
        top_right: num_or(num_of(obj, "rectangleTopRightCornerRadius"@), fallback),
        bottom_right: num_or(num_of(obj, "rectangleBottomRightCornerRadius"@), fallback),
        bottom_left: num_or(num_of(obj, "rectangleBottomLeftCornerRadius"@), fallback),
    };
    if is_positive(radii.top_left) || is_positive(radii.top_right) || is_positive(radii.bottom_right)
        || is_positive(radii.bottom_left) {
        Some(radii)
    } else {
        None
    }
}

fn positive(n: Number) -> (r: bool)
    ensures
        r == is_positive(n),
{
    match n {
        Number::Int(i) => i > 0,
        Number::UInt(u) => u > 0,
        Number::Int64(i) => i > 0,
        Number::UInt64(u) => u > 0,
        Number::Float(b) => 0 < b && b <= 0x7F80_0000,
    }
}

fn num_field_or(obj: &FastVal, name: &str, d: Number) -> (r: Number)
    ensures
        r == num_or(num_of(obj.val(), name@), d),
{
    match num_field(obj, name) {
        Some(n) => n,
        None => d,
    }
}

pub fn get_corner_radii(obj: &FastVal) -> (r: Option<CornerRadii>)
    ensures
        r == corner_radii_of(obj.val()),
{
    let fallback = num_field_or(obj, "cornerRadius", Number::Float(F32_ZERO));
    let radii = CornerRadii {
        top_left: num_field_or(obj, "rectangleTopLeftCornerRadius", fallback),
        top_right: num_field_or(obj, "rectangleTopRightCornerRadius", fallback),
        bottom_right: num_field_or(obj, "rectangleBottomRightCornerRadius", fallback),
        bottom_left: num_field_or(obj, "rectangleBottomLeftCornerRadius", fallback),
    };
    if positive(radii.top_left) || positive(radii.top_right) || positive(radii.bottom_right)
        || positive(radii.bottom_left) {
        Some(radii)
    } else {
        None
    }
}

/// The schema type name carried by a value itself: an enum's variant name.
/// Decoded objects carry none.
pub open spec fn obj_type_name(v: KValue) -> Option<Seq<char>> {
    match v {
        KValue::Enum(s) => Some(s),
        _ => None,
    }
}

/// The field `name` holds no paint (absent, not an array, or empty).
pub open spec fn no_paints(obj: KValue, name: Seq<char>) -> bool {
    match arr_of(obj, name) {
        Some(a) => a.len() == 0,
        None => true,
    }
}

/// Frames clip their content unless `frameMaskDisabled` is set; a frame-typed
/// value that resizes to fit and has no fills, strokes or background never clips.
pub open spec fn clips_content_of(obj: KValue) -> bool {
    let is_group_frame = (match obj_type_name(obj) {
        Some(t) => ends_with(t, "FRAME"@),
        None => false,
    }) && bool_or(bool_of(obj, "resizeToFit"@), false) && no_paints(obj, "fillPaints"@)
        && no_paints(obj, "strokePaints"@) && no_paints(obj, "backgroundPaints"@);
    if is_group_frame {
        false
    } else {
        match bool_of(obj, "frameMaskDisabled"@) {
            Some(disabled) => !disabled,
            None => true,
        }
    }
}

fn ends_with_frame(s: &str) -> (r: bool)
    ensures
        r == ends_with(s@, "FRAME"@),
{
    let ghost t = s@;
    let u = s.unicode_len();
    let frame = "FRAME";
    let k = frame.unicode_len();
    if k > u {
        assert(frame@ == "FRAME"@);
        return false;
    }
    let mut i: usize = 0;
    while i < k
        invariant
            k <= u,
            u == t.len(),
            k == frame@.len(),
            frame@ == "FRAME"@,
            t == s@,
            i <= k,
            forall|j: int| 0 <= j < i ==> t[u - k + j] == frame@[j],
        decreases k - i,
    {
        if s.get_char(u - k + i) != frame.get_char(i) {
            proof {
                let sub = t.subrange(u - k, u as int);
                assert(sub[i as int] == t[u - k + i]);
                assert(sub[i as int] != frame@[i as int]);
                assert(sub != frame@);
                assert(frame@ == "FRAME"@);
            }
            return false;
        }
        i = i + 1;
    }
    assert(t.subrange(u - k, u as int) =~= frame@);
    assert(frame@ == "FRAME"@);
    true
}

fn has_paints(obj: &FastVal, name: &str) -> (r: bool)
    ensures
        r == !no_paints(obj.val(), name@),
{
    match obj.get(name) {
        Some(v) => match v.as_array() {
            Some(a) => {
                proof {
                    lemma_vals_index(a@);
                }
                a.len() > 0
            },
            None => false,
        },
        None => false,
    }
}

pub fn get_clips_content(obj: &FastVal) -> (r: bool)
    ensures
        r == clips_content_of(obj.val()),
{
    let typed_frame = match obj {
        FastVal::Enum(t) => ends_with_frame(t.as_str()),
        _ => false,
    };
    let is_group_frame = typed_frame && (match bool_field(obj, "resizeToFit") {
        Some(b) => b,
        None => false,
    }) && !has_paints(obj, "fillPaints") && !has_paints(obj, "strokePaints") && !has_paints(obj, "backgroundPaints");
    if is_group_frame {
        return false;
    }
    match bool_field(obj, "frameMaskDisabled") {
        Some(disabled) => !disabled,
        None => true,
    }
}

/// The parent reference `{ guid, position }` of a node change; the position
/// defaults to the empty string.
pub open spec fn parent_index_of(obj: KValue) -> Option<(NodeId, Seq<char>)> {
    match kget(obj, "parentIndex"@) {
        None => None,
        Some(pi) => match kget(pi, "guid"@) {
            None => None,
            Some(g) => match (u64_of(g, "sessionID"@), u64_of(g, "localID"@)) {
                (Some(s), Some(l)) => Some((
                    NodeId { session_id: s as u32, local_id: l as u32 },
                    match str_of(pi, "position"@) {
                        Some(p) => p,
                        None => Seq::empty(),
                    },
                )),
                _ => None,
            },
        },
    }
}

pub fn get_parent_index(obj: &FastVal) -> (r: Option<(NodeId, String)>)
    ensures
        match parent_index_of(obj.val()) {
            Some((id, pos)) => (r matches Some(pr) && pr.0 == id && pr.1@ == pos),
            None => r is None,
        },
{
    let pi = obj.get("parentIndex")?;
    let guid = pi.get("guid")?;
    let pos = match as_str_of(pi, "position") {
        Some(p) => p,
        None => "",
    };
    let sid = u64_field(guid, "sessionID")?;
    let lid = u64_field(guid, "localID")?;
    let pos_owned = owned(pos);
    proof {
        if str_of(pi.val(), "position"@) is None {
            reveal_strlit("");
            assert(pos_owned@ =~= Seq::<char>::empty());
        }
    }
    Some((NodeId::new(sid as u32, lid as u32), pos_owned))
}

/// A lowercase hex digit for `n < 16`, as an ASCII byte.
pub open spec fn hex_digit(n: int) -> u8 {
    if n < 10 { (48 + n) as u8 } else { (87 + n) as u8 }
}

/// The lowercase hex encoding of `b`, two ASCII digits per byte.
pub open spec fn hex_ascii(b: Seq<u8>) -> Seq<u8> {
    Seq::new(2 * b.len(), |i: int| hex_digit(if i % 2 == 0 { b[i / 2] as int / 16 } else { b[i / 2] as int % 16 }))
}

/// The hex string of a byte array value (image hashes are byte arrays).
pub open spec fn hex_of(v: KValue) -> Option<Seq<char>> {
    match kbytes(v) {
        Some(b) => Some(utf8_lossy(hex_ascii(b))),
        None => None,
    }
}

fn hex_char(n: u8) -> (r: u8)
    requires
        n < 16,
    ensures
        r == hex_digit(n as int),
{
    if n < 10 { 48 + n } else { 87 + n }
}

/// Byte arrays render as lowercase hex strings.
pub fn bytes_as_hex(v: &FastVal) -> (r: Option<String>)
    ensures
        r matches Some(s) ==> hex_of(v.val()) == Some(s@),
        r is None ==> hex_of(v.val()) is None,
{
    let b = v.as_bytes()?;
    let mut out: Vec<u8> = Vec::new();
    let mut i: usize = 0;
    while i < b.len()
        invariant
            i <= b@.len(),
            out@.len() == 2 * i,
            forall|j: int| 0 <= j < 2 * i ==> #[trigger] out@[j] == hex_ascii(b@)[j],
        decreases b@.len() - i,
    {
        let x = b[i];
        out.push(hex_char(x / 16));
        out.push(hex_char(x % 16));
        proof {
            assert(hex_ascii(b@)[2 * i as int] == hex_digit(x as int / 16));
            assert(hex_ascii(b@)[2 * i + 1] == hex_digit(x as int % 16));
        }
        i = i + 1;
    }
    assert(out@ =~= hex_ascii(b@));
    Some(from_utf8_lossy(out.as_slice()))
}

/// The paint type a schema name stands for; anything unrecognised is solid.
pub open spec fn paint_type_of(s: Seq<char>) -> PaintType {
    if s == "SOLID"@ { PaintType::Solid }
    else if s == "GRADIENT_LINEAR"@ { PaintType::GradientLinear }
    else if s == "GRADIENT_RADIAL"@ { PaintType::GradientRadial }
    else if s == "GRADIENT_ANGULAR"@ { PaintType::GradientAngular }
    else if s == "GRADIENT_DIAMOND"@ { PaintType::GradientDiamond }
    else if s == "IMAGE"@ { PaintType::Image }
    else { PaintType::Solid }
}

fn paint_type_from(s: &str) -> (r: PaintType)
    ensures
        r == paint_type_of(s@),
{
    if str_eq(s, "SOLID") { PaintType::Solid }
    else if str_eq(s, "GRADIENT_LINEAR") { PaintType::GradientLinear }
    else if str_eq(s, "GRADIENT_RADIAL") { PaintType::GradientRadial }
    else if str_eq(s, "GRADIENT_ANGULAR") { PaintType::GradientAngular }
    else if str_eq(s, "GRADIENT_DIAMOND") { PaintType::GradientDiamond }
    else if str_eq(s, "IMAGE") { PaintType::Image }
    else { PaintType::Solid }
}

/// The type name of an array item: the item itself when it is a string or
/// enum, else its `type` field, else `default`.
pub open spec fn item_type_name(item: KValue, default: Seq<char>) -> Seq<char> {
    match kstr(item) {
        Some(s) => s,
        None => match str_of(item, "type"@) {
            Some(s) => s,
            None => default,
        },
    }
}

fn item_type<'a, 'm>(item: &'a FastVal<'m>, default: &'a str) -> (r: &'a str)
    ensures
        r@ == item_type_name(item.val(), default@),
{
    match item.as_str() {
        Some(s) => s,
        None => match as_str_of(item, "type") {
            Some(s) => s,
            None => default,
        },
    }
}

/// The gradient stops of an array: each item with a color and a position.
pub open spec fn stops_of(a: Seq<KValue>) -> Seq<ColorStop>
    decreases a.len(),
{
    if a.len() == 0 {
        Seq::empty()
    } else {
        let rest = stops_of(a.drop_last());
        match (color_of(a.last(), "color"@), num_of(a.last(), "position"@)) {
            (Some(color), Some(position)) => rest.push(ColorStop { color, position }),
            _ => rest,
        }
    }
}

/// The image hash under `image.hash`, as hex.
pub open spec fn image_hash_of(item: KValue) -> Option<Seq<char>> {
    match kget(item, "image"@) {
        None => None,
        Some(img) => match kget(img, "hash"@) {
            None => None,
            Some(h) => hex_of(h),
        },
    }
}

/// One paint of a paint array.
pub open spec fn paint_of(item: KValue) -> PaintView {
    PaintView {
        paint_type: paint_type_of(item_type_name(item, "SOLID"@)),
        color: color_of(item, "color"@),
        opacity: num_or(num_of(item, "opacity"@), Number::Float(F32_ONE)),
        visible: bool_or(bool_of(item, "visible"@), true),
        stops: match arr_of(item, "stops"@) {
            Some(a) => stops_of(a),
            None => Seq::empty(),
        },
        transform: matrix_of(item, "transform"@),
        image_hash: image_hash_of(item),
        gradient_handles: Seq::empty(),
    }
}

/// The paints in the array field `name`; none when it is absent or not an array.
pub open spec fn paints_of(obj: KValue, name: Seq<char>) -> Seq<PaintView> {
    match arr_of(obj, name) {
        Some(a) => a.map_values(|x: KValue| paint_of(x)),
        None => Seq::empty(),
    }
}

fn get_stops(arr: &Vec<FastVal>) -> (r: Vec<ColorStop>)
    ensures
        r@ == stops_of(vals(arr@)),
{
    proof {
        lemma_vals_index(arr@);
    }
    let ghost a = vals(arr@);
    let mut out: Vec<ColorStop> = Vec::new();
    let mut i: usize = 0;
    while i < arr.len()
        invariant
            a == vals(arr@),
            a.len() == arr@.len(),
            forall|k: int| 0 <= k < arr@.len() ==> #[trigger] a[k] == arr@[k].val(),
            i <= arr@.len(),
            out@ == stops_of(a.subrange(0, i as int)),
        decreases arr@.len() - i,
    {
        let s = &arr[i];
        assert(a.subrange(0, i + 1).drop_last() =~= a.subrange(0, i as int));
        assert(a.subrange(0, i + 1).last() == s.val());
        match (get_color(s, "color"), num_field(s, "position")) {
            (Some(color), Some(position)) => out.push(ColorStop { color, position }),
            _ => {},
        }
        i = i + 1;
    }
    assert(a.subrange(0, arr@.len() as int) =~= a);
    out
}

fn get_image_hash(item: &FastVal) -> (r: Option<String>)
    ensures
        opt_str_view(r) == image_hash_of(item.val()),
{
    let img = item.get("image")?;
    let h = img.get("hash")?;
    bytes_as_hex(h)
}

fn get_paint(item: &FastVal) -> (r: Paint)
    ensures
        r@ == paint_of(item.val()),
{
    let image_hash = get_image_hash(item);
    let stops = match item.get("stops") {
        Some(v) => match v.as_array() {
            Some(a) => get_stops(a),
            None => Vec::new(),
        },
        None => Vec::new(),
    };
    let r = Paint {
        paint_type: paint_type_from(item_type(item, "SOLID")),
        color: get_color(item, "color"),
        opacity: num_field_or(item, "opacity", Number::Float(F32_ONE)),
        visible: match bool_field(item, "visible") {
            Some(b) => b,
            None => true,
        },
        stops,
        transform: get_matrix(item, "transform"),
        image_hash,
        gradient_handles: Vec::new(),
    };
    assert(r@.stops =~= paint_of(item.val()).stops);
    assert(r@.gradient_handles =~= Seq::<Vec2>::empty());
    r
}

/// The paints in the array field `name`.
pub fn get_paints(obj: &FastVal, name: &str) -> (r: Vec<Paint>)
    ensures
        paints_view(r@) == paints_of(obj.val(), name@),
{
    let arr = match obj.get(name) {
        Some(v) => match v.as_array() {
            Some(a) => a,
            None => {
                let r = Vec::new();
                assert(paints_view(r@) =~= Seq::<PaintView>::empty());
                return r;
            },
        },
        None => {
            let r = Vec::new();
            assert(paints_view(r@) =~= Seq::<PaintView>::empty());
            return r;
        },
    };
    proof {
        lemma_vals_index(arr@);
    }
    let ghost a = vals(arr@);
    let mut out: Vec<Paint> = Vec::new();
    let mut i: usize = 0;
    while i < arr.len()
        invariant
            a == vals(arr@),
            a.len() == arr@.len(),
            forall|k: int| 0 <= k < arr@.len() ==> #[trigger] a[k] == arr@[k].val(),
            i <= arr@.len(),
            paints_view(out@) =~= a.subrange(0, i as int).map_values(|x: KValue| paint_of(x)),
        decreases arr@.len() - i,
    {
        let p = get_paint(&arr[i]);
        let ghost before = out@;
        out.push(p);
        proof {
            assert(paints_view(out@) =~= paints_view(before).push(p@));
            assert(a.subrange(0, i + 1).map_values(|x: KValue| paint_of(x))
                =~= a.subrange(0, i as int).map_values(|x: KValue| paint_of(x)).push(paint_of(a[i as int])));
        }
        i = i + 1;
    }
    assert(a.subrange(0, arr@.len() as int) =~= a);
    out
}

/// The `textData` block of a text node, with its defaults.
pub open spec fn text_data_of(obj: KValue) -> Option<TextDataView> {
    match kget(obj, "textData"@) {
        None => None,
        Some(td) => Some(TextDataView {
            characters: match str_of(td, "characters"@) {
                Some(s) => s,
                None => Seq::empty(),
            },
            font_family: str_of(td, "fontFamily"@),
            font_weight: num_or(num_of(td, "fontWeight"@), Number::Float(F32_FOUR_HUNDRED)),
            font_size: num_or(num_of(td, "fontSize"@), Number::Float(F32_SIXTEEN)),
            letter_spacing: num_or(num_of(td, "letterSpacing"@), Number::Float(F32_ZERO)),
            line_height: num_of(td, "lineHeight"@),
            fills: paints_of(td, "fills"@),
        }),
    }
}

fn opt_owned(o: Option<&str>) -> (r: Option<String>)
    ensures
        match o {
            Some(s) => r is Some && r->0@ == s@,
            None => r is None,
        },
{
    match o {
        Some(s) => Some(owned(s)),
        None => None,
    }
}

pub fn get_text_data(obj: &FastVal) -> (r: Option<TextData>)
    ensures
        match text_data_of(obj.val()) {
            Some(t) => r is Some && r->0@ == t,
            None => r is None,
        },
{
    let td = obj.get("textData")?;
    let characters = match as_str_of(td, "characters") {
        Some(s) => owned(s),
        None => {
            let e = owned("");
            proof {
                reveal_strlit("");
                assert(e@ =~= Seq::<char>::empty());
            }
            e
        },
    };
    Some(TextData {
        characters,
        font_family: opt_owned(as_str_of(td, "fontFamily")),
        font_weight: num_field_or(td, "fontWeight", Number::Float(F32_FOUR_HUNDRED)),
        font_size: num_field_or(td, "fontSize", Number::Float(F32_SIXTEEN)),
        letter_spacing: num_field_or(td, "letterSpacing", Number::Float(F32_ZERO)),
        line_height: num_field(td, "lineHeight"),
        fills: get_paints(td, "fills"),
    })
}

/// The effect type a schema name stands for; anything unrecognised is a drop shadow.
pub open spec fn effect_type_of(s: Seq<char>) -> EffectType {
    if s == "INNER_SHADOW"@ { EffectType::InnerShadow }
    else if s == "DROP_SHADOW"@ { EffectType::DropShadow }
    else if s == "FOREGROUND_BLUR"@ { EffectType::ForegroundBlur }
    else if s == "BACKGROUND_BLUR"@ { EffectType::BackgroundBlur }
    else { EffectType::DropShadow }
}

/// One effect of the `effects` array, with its defaults.
pub open spec fn effect_of(item: KValue) -> Effect {
    Effect {
        effect_type: effect_type_of(item_type_name(item, "DROP_SHADOW"@)),
        color: color_of(item, "color"@),
        offset: match vector_of(item, "offset"@) {
            Some(v) => v,
            None => Vec2 { x: Number::Float(F32_ZERO), y: Number::Float(F32_ZERO) },
        },
        radius: num_or(num_of(item, "radius"@), Number::Float(F32_ZERO)),
        visible: bool_or(bool_of(item, "visible"@), true),
        spread: num_or(num_of(item, "spread"@), Number::Float(F32_ZERO)),
    }
}

pub open spec fn effects_of(obj: KValue) -> Seq<Effect> {
    match arr_of(obj, "effects"@) {
        Some(a) => a.map_values(|x: KValue| effect_of(x)),
        None => Seq::empty(),
    }
}

/// An effect's offset is the vector under its `offset` field: its `x` is
/// the number at `offset.x` and its `y` the number at `offset.y`.
pub proof fn law_effect_offset(item: KValue, o: KValue, x: Number, y: Number)
    requires
        kget(item, "offset"@) == Some(o),
        field_number_is(o, "x"@, x),
        field_number_is(o, "y"@, y),
    ensures
        effect_of(item).offset.x == x,
        effect_of(item).offset.y == y,
{
}

fn get_effect(item: &FastVal) -> (r: Effect)
    ensures
        r == effect_of(item.val()),
{
    let name = item_type(item, "DROP_SHADOW");
    let effect_type = if str_eq(name, "INNER_SHADOW") {
        EffectType::InnerShadow
    } else if str_eq(name, "DROP_SHADOW") {
        EffectType::DropShadow
    } else if str_eq(name, "FOREGROUND_BLUR") {
        EffectType::ForegroundBlur
    } else if str_eq(name, "BACKGROUND_BLUR") {
        EffectType::BackgroundBlur
    } else {
        EffectType::DropShadow
    };
    Effect {
        effect_type,
        color: get_color(item, "color"),
        offset: match get_vector(item, "offset") {
            Some(v) => v,
            None => Vec2::new(Number::Float(F32_ZERO), Number::Float(F32_ZERO)),
        },
        radius: num_field_or(item, "radius", Number::Float(F32_ZERO)),
        visible: match bool_field(item, "visible") {
            Some(b) => b,
            None => true,
        },
        spread: num_field_or(item, "spread", Number::Float(F32_ZERO)),
    }
}

pub fn get_effects(obj: &FastVal) -> (r: Vec<Effect>)
    ensures
        r@ == effects_of(obj.val()),
{
    let arr = match obj.get("effects") {
        Some(v) => match v.as_array() {
            Some(a) => a,
            None => {
                let r = Vec::new();
                assert(r@ =~= Seq::<Effect>::empty());
                return r;
            },
        },
        None => {
            let r = Vec::new();
            assert(r@ =~= Seq::<Effect>::empty());
            return r;
        },
    };
    proof {
        lemma_vals_index(arr@);
    }
    let ghost a = vals(arr@);
    let mut out: Vec<Effect> = Vec::new();
    let mut i: usize = 0;
    while i < arr.len()
        invariant
            a == vals(arr@),
            a.len() == arr@.len(),
            forall|k: int| 0 <= k < arr@.len() ==> #[trigger] a[k] == arr@[k].val(),
            i <= arr@.len(),
            out@ =~= a.subrange(0, i as int).map_values(|x: KValue| effect_of(x)),
        decreases arr@.len() - i,
    {
        out.push(get_effect(&arr[i]));
        i = i + 1;
    }
    assert(a.subrange(0, arr@.len() as int) =~= a);
    out
}

/// The winding rule a schema name selects: `EVENODD` or `ODD` is even-odd.
pub open spec fn winding_rule_of(name: Option<Seq<char>>) -> WindingRule {
    if name == Some("EVENODD"@) || name == Some("ODD"@) { WindingRule::EvenOdd } else { WindingRule::NonZero }
}

pub fn winding_rule(name: Option<&str>) -> (r: WindingRule)
    ensures
        r == winding_rule_of(match name { Some(s) => Some(s@), None => None }),
{
    match name {
        Some(s) => if str_eq(s, "EVENODD") || str_eq(s, "ODD") { WindingRule::EvenOdd } else { WindingRule::NonZero },
        None => WindingRule::NonZero,
    }
}

/// The contents of each blob.
pub open spec fn blobs_view(blobs: Seq<Vec<u8>>) -> Seq<Seq<u8>> {
    blobs.map_values(|b: Vec<u8>| b@)
}

/// One entry of a geometry array: the commands blob it names, decoded, with
/// its winding rule and style; `None` when the blob is missing or undecodable.
pub open spec fn geometry_entry(e: KValue, blobs: Seq<Seq<u8>>) -> Option<GeometryPathView> {
    match u64_of(e, "commandsBlob"@) {
        None => None,
        Some(id) => {
            let i = (id as usize) as int;
            if i < blobs.len() {
                match commands_blob(blobs[i]) {
                    Some(c) => Some(GeometryPathView {
                        commands: c,
                        winding_rule: winding_rule_of(str_of(e, "windingRule"@)),
                        style_id: (match u64_of(e, "styleID"@) { Some(x) => x, None => 0 }) as u32,
                    }),
                    None => None,
                }
            } else {
                None
            }
        },
    }
}

/// The decodable entries of a geometry array, in order.
pub open spec fn geometry_entries(a: Seq<KValue>, blobs: Seq<Seq<u8>>) -> Seq<GeometryPathView>
    decreases a.len(),
{
    if a.len() == 0 {
        Seq::empty()
    } else {
        let rest = geometry_entries(a.drop_last(), blobs);
        match geometry_entry(a.last(), blobs) {
            Some(g) => rest.push(g),
            None => rest,
        }
    }
}

/// The paths of a geometry array value; none when absent or not an array.
pub open spec fn geometry_paths_of(value: Option<KValue>, blobs: Seq<Seq<u8>>) -> Seq<GeometryPathView> {
    match value {
        Some(v) => match karr(v) {
            Some(a) => geometry_entries(a, blobs),
            None => Seq::empty(),
        },
        None => Seq::empty(),
    }
}

fn geometry_path_entry(e: &FastVal, blobs: &[Vec<u8>]) -> (r: Option<GeometryPath>)
    ensures
        match geometry_entry(e.val(), blobs_view(blobs@)) {
            Some(g) => r is Some && r->0@ == g,
            None => r is None,
        },
{
    let blob_id = u64_field(e, "commandsBlob")? as usize;
    if blob_id >= blobs.len() {
        return None;
    }
    let commands = decode_commands_blob(blobs[blob_id].as_slice())?;
    Some(GeometryPath {
        commands,
        winding_rule: winding_rule(as_str_of(e, "windingRule")),
        style_id: match u64_field(e, "styleID") {
            Some(x) => x,
            None => 0,
        } as u32,
    })
}

/// Baked geometry paths: each entry's commands blob, decoded.
pub fn get_geometry_paths(value: Option<&FastVal>, blobs: &[Vec<u8>]) -> (r: Vec<GeometryPath>)
    ensures
        paths_view(r@) == geometry_paths_of(match value { Some(v) => Some(v.val()), None => None }, blobs_view(blobs@)),
{
    let arr = match value {
        Some(v) => match v.as_array() {
            Some(a) => a,
            None => {
                let r = Vec::new();
                assert(paths_view(r@) =~= Seq::<GeometryPathView>::empty());
                return r;
            },
        },
        None => {
            let r = Vec::new();
            assert(paths_view(r@) =~= Seq::<GeometryPathView>::empty());
            return r;
        },
    };
    proof {
        lemma_vals_index(arr@);
    }
    let ghost a = vals(arr@);
    let ghost bv = blobs_view(blobs@);
    let mut out: Vec<GeometryPath> = Vec::new();
    let mut i: usize = 0;
    while i < arr.len()
        invariant
            a == vals(arr@),
            bv == blobs_view(blobs@),
            a.len() == arr@.len(),
            forall|k: int| 0 <= k < arr@.len() ==> #[trigger] a[k] == arr@[k].val(),
            i <= arr@.len(),
            paths_view(out@) == geometry_entries(a.subrange(0, i as int), bv),
        decreases arr@.len() - i,
    {
        assert(a.subrange(0, i + 1).drop_last() =~= a.subrange(0, i as int));
        assert(a.subrange(0, i + 1).last() == arr@[i as int].val());
        let ghost before = out@;
        match geometry_path_entry(&arr[i], blobs) {
            Some(g) => {
                out.push(g);
                assert(paths_view(out@) =~= paths_view(before).push(g@));
            },
            None => {},
        }
        i = i + 1;
    }
    assert(a.subrange(0, arr@.len() as int) =~= a);
    out
}

/// The vector network of `vectorData`: the blob it names, decoded, with the
/// normalized size when one is given.
pub open spec fn vector_geometry_of(value: Option<KValue>, blobs: Seq<Seq<u8>>) -> Option<VectorGeometryView> {
    match value {
        None => None,
        Some(d) => match u64_of(d, "vectorNetworkBlob"@) {
            None => None,
            Some(id) => {
                let i = (id as usize) as int;
                if i >= blobs.len() {
                    None
                } else {
                    match vector_blob(blobs[i]) {
                        None => None,
                        Some(paths) => Some(VectorGeometryView {
                            paths,
                            normalized_size: if kget(d, "normalizedSize"@) is Some {
                                vector_of(d, "normalizedSize"@)
                            } else {
                                None
                            },
                        }),
                    }
                }
            },
        },
    }
}

pub fn get_vector_geometry(value: Option<&FastVal>, blobs: &[Vec<u8>]) -> (r: Option<VectorGeometry>)
    ensures
        match vector_geometry_of(match value { Some(v) => Some(v.val()), None => None }, blobs_view(blobs@)) {
            Some(g) => r is Some && r->0@ == g,
            None => r is None,
        },
{
    let data = value?;
    let blob_id = u64_field(data, "vectorNetworkBlob")? as usize;
    if blob_id >= blobs.len() {
        return None;
    }
    let paths = decode_vector_blob(blobs[blob_id].as_slice())?;
    let normalized_size = match data.get("normalizedSize") {
        Some(_) => get_vector(data, "normalizedSize"),
        None => None,
    };
    Some(VectorGeometry { paths, normalized_size })
}

/// The byte contents of each `blobs` entry of the root message that has them.
pub open spec fn blob_entries(a: Seq<KValue>) -> Seq<Seq<u8>>
    decreases a.len(),
{
    if a.len() == 0 {
        Seq::empty()
    } else {
        let rest = blob_entries(a.drop_last());
        match kget(a.last(), "bytes"@) {
            Some(b) => match kbytes(b) {
                Some(bytes) => rest.push(bytes),
                None => rest,
            },
            None => rest,
        }
    }
}

pub open spec fn blobs_of(root: KValue) -> Seq<Seq<u8>> {
    match arr_of(root, "blobs"@) {
        Some(a) => blob_entries(a),
        None => Seq::empty(),
    }
}

/// Pull the raw `blobs` array (geometry byte streams) out of the root value.
pub fn extract_blobs(root: &FastVal) -> (r: Vec<Vec<u8>>)
    ensures
        blobs_view(r@) == blobs_of(root.val()),
{
    let arr = match root.get("blobs") {
        Some(v) => match v.as_array() {
            Some(a) => a,
            None => {
                let r = Vec::new();
                assert(blobs_view(r@) =~= Seq::<Seq<u8>>::empty());
                return r;
            },
        },
        None => {
            let r = Vec::new();
            assert(blobs_view(r@) =~= Seq::<Seq<u8>>::empty());
            return r;
        },
    };
    proof {
        lemma_vals_index(arr@);
    }
    let ghost a = vals(arr@);
    let mut out: Vec<Vec<u8>> = Vec::new();
    let mut i: usize = 0;
    while i < arr.len()
        invariant
            a == vals(arr@),
            a.len() == arr@.len(),
            forall|k: int| 0 <= k < arr@.len() ==> #[trigger] a[k] == arr@[k].val(),
            i <= arr@.len(),
            blobs_view(out@) == blob_entries(a.subrange(0, i as int)),
        decreases arr@.len() - i,
    {
        assert(a.subrange(0, i + 1).drop_last() =~= a.subrange(0, i as int));
        assert(a.subrange(0, i + 1).last() == arr@[i as int].val());
        let ghost before = out@;
        match arr[i].get("bytes") {
            Some(b) => match b.as_bytes() {
                Some(bytes) => {
                    let v = vstd::slice::slice_to_vec(bytes);
                    out.push(v);
                    assert(blobs_view(out@) =~= blobs_view(before).push(v@));
                },
                None => {},
            },
            None => {},
        }
        i = i + 1;
    }
    assert(a.subrange(0, arr@.len() as int) =~= a);
    out
}

} // verus!
