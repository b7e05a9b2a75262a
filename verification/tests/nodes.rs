use fig_parser::document::extract_node;
use fig_parser::fastkiwi::FastVal;
use fig_parser::nodes::{
    as_bool_v, as_str_of_v, bytes_as_hex, get, extract_blobs, get_clips_content, get_color, get_corner_radii, get_effects,
    get_geometry_paths, get_paints, get_parent_index, get_text_data, get_vector_geometry, winding_rule,
};
use fig_parser::geometry::{PathCommand, WindingRule};
use fig_parser::types::{
    Color, EffectType, NodeId, NodePhase, NodeType, Number, PaintType, StrokeAlign, Vec2, F32_ONE, F32_SIXTEEN,
    F32_FOUR_HUNDRED, F32_ZERO,
};

fn obj<'m>(fields: Vec<(&str, FastVal<'m>)>) -> FastVal<'m> {
    FastVal::Obj(fields.into_iter().map(|(k, v)| (k.to_string(), v)).collect())
}

fn s(v: &str) -> FastVal<'static> {
    FastVal::Str(v.to_string())
}

fn e(v: &str) -> FastVal<'static> {
    FastVal::Enum(v.to_string())
}

fn f(v: f32) -> FastVal<'static> {
    FastVal::Float(v.to_bits())
}

fn fbits(v: f32) -> Number {
    Number::Float(v.to_bits())
}

fn guid(sid: u32, lid: u32) -> FastVal<'static> {
    obj(vec![("sessionID", FastVal::UInt(sid)), ("localID", FastVal::UInt(lid))])
}

fn color(r: f32, g: f32, b: f32) -> FastVal<'static> {
    obj(vec![("r", f(r)), ("g", f(g)), ("b", f(b))])
}

#[test]
fn color_alpha_defaults_to_one() {
    let o = obj(vec![("color", color(1.0, 0.5, 0.0))]);
    assert_eq!(
        get_color(&o, "color"),
        Some(Color { r: fbits(1.0), g: fbits(0.5), b: fbits(0.0), a: Number::Float(F32_ONE) })
    );
    let partial = obj(vec![("color", obj(vec![("r", f(1.0))]))]);
    assert_eq!(get_color(&partial, "color"), None);
}

#[test]
fn paints_read_type_color_stops_and_hash() {
    let hash = [0xde_u8, 0xad, 0x01];
    let paints = FastVal::Arr(vec![
        obj(vec![("type", e("SOLID")), ("color", color(0.0, 0.0, 1.0)), ("opacity", f(0.5))]),
        obj(vec![
            ("type", e("GRADIENT_LINEAR")),
            (
                "stops",
                FastVal::Arr(vec![
                    obj(vec![("color", color(1.0, 1.0, 1.0)), ("position", f(0.0))]),
                    obj(vec![("position", f(1.0))]),
                ]),
            ),
            ("visible", FastVal::Bool(false)),
        ]),
        obj(vec![("type", e("IMAGE")), ("image", obj(vec![("hash", FastVal::Bytes(&hash))]))]),
        obj(vec![("type", e("EMOJI"))]),
    ]);
    let node = obj(vec![("fillPaints", paints)]);
    let p = get_paints(&node, "fillPaints");
    assert_eq!(p.len(), 4);
    assert_eq!(p[0].paint_type, PaintType::Solid);
    assert_eq!(p[0].opacity, fbits(0.5));
    assert!(p[0].visible);
    assert_eq!(p[1].paint_type, PaintType::GradientLinear);
    assert_eq!(p[1].stops.len(), 1);
    assert!(!p[1].visible);
    assert_eq!(p[1].opacity, Number::Float(F32_ONE));
    assert_eq!(p[2].paint_type, PaintType::Image);
    assert_eq!(p[2].image_hash, Some("dead01".to_string()));
    assert_eq!(p[3].paint_type, PaintType::Solid);
    assert!(get_paints(&node, "strokePaints").is_empty());
}

#[test]
fn hex_of_byte_arrays() {
    let bytes = [0u8, 15, 16, 255];
    assert_eq!(bytes_as_hex(&FastVal::Bytes(&bytes)), Some("000f10ff".to_string()));
    assert_eq!(bytes_as_hex(&s("x")), None);
}

#[test]
fn text_data_defaults() {
    let node = obj(vec![("textData", obj(vec![("characters", s("Hi")), ("fontSize", f(12.0))]))]);
    let t = get_text_data(&node).unwrap();
    assert_eq!(t.characters, "Hi");
    assert_eq!(t.font_family, None);
    assert_eq!(t.font_size, fbits(12.0));
    assert_eq!(t.font_weight, Number::Float(F32_FOUR_HUNDRED));
    assert_eq!(t.letter_spacing, Number::Float(F32_ZERO));
    assert_eq!(t.line_height, None);
    assert!(get_text_data(&obj(vec![])).is_none());
    let empty = get_text_data(&obj(vec![("textData", obj(vec![]))])).unwrap();
    assert_eq!(empty.characters, "");
    assert_eq!(empty.font_size, Number::Float(F32_SIXTEEN));
}

#[test]
fn effects_map_type_names() {
    let node = obj(vec![(
        "effects",
        FastVal::Arr(vec![
            obj(vec![("type", e("INNER_SHADOW")), ("radius", f(4.0))]),
            obj(vec![("type", e("BACKGROUND_BLUR")), ("visible", FastVal::Bool(false))]),
            obj(vec![("type", e("SOMETHING_ELSE"))]),
        ]),
    )]);
    let fx = get_effects(&node);
    assert_eq!(fx.len(), 3);
    assert_eq!(fx[0].effect_type, EffectType::InnerShadow);
    assert_eq!(fx[0].radius, fbits(4.0));
    assert_eq!(fx[0].offset, Vec2::new(Number::Float(F32_ZERO), Number::Float(F32_ZERO)));
    assert_eq!(fx[1].effect_type, EffectType::BackgroundBlur);
    assert!(!fx[1].visible);
    assert_eq!(fx[2].effect_type, EffectType::DropShadow);
}

#[test]
fn corner_radii_need_a_positive_corner() {
    let none = obj(vec![("cornerRadius", f(0.0))]);
    assert!(get_corner_radii(&none).is_none());
    let one = obj(vec![("cornerRadius", f(2.0)), ("rectangleTopLeftCornerRadius", f(0.0))]);
    let r = get_corner_radii(&one).unwrap();
    assert_eq!(r.top_left, fbits(0.0));
    assert_eq!(r.top_right, fbits(2.0));
}

#[test]
fn clipping_follows_frame_mask() {
    assert!(get_clips_content(&obj(vec![])));
    assert!(!get_clips_content(&obj(vec![("frameMaskDisabled", FastVal::Bool(true))])));
    assert!(get_clips_content(&obj(vec![("frameMaskDisabled", FastVal::Bool(false))])));
}

#[test]
fn parent_index_reads_guid_and_position() {
    let node = obj(vec![("parentIndex", obj(vec![("guid", guid(3, 9)), ("position", s("a"))]))]);
    assert_eq!(get_parent_index(&node), Some((NodeId::new(3, 9), "a".to_string())));
    let no_pos = obj(vec![("parentIndex", obj(vec![("guid", guid(3, 9))]))]);
    assert_eq!(get_parent_index(&no_pos), Some((NodeId::new(3, 9), String::new())));
    assert_eq!(get_parent_index(&obj(vec![])), None);
}

#[test]
fn winding_rule_names() {
    assert_eq!(winding_rule(Some("EVENODD")), WindingRule::EvenOdd);
    assert_eq!(winding_rule(Some("ODD")), WindingRule::EvenOdd);
    assert_eq!(winding_rule(Some("NONZERO")), WindingRule::NonZero);
    assert_eq!(winding_rule(None), WindingRule::NonZero);
}

#[test]
fn geometry_paths_resolve_blobs() {
    let mut blob = vec![1u8];
    blob.extend_from_slice(&1.0f32.to_le_bytes());
    blob.extend_from_slice(&2.0f32.to_le_bytes());
    let blob2 = vec![9u8];
    let root = obj(vec![(
        "blobs",
        FastVal::Arr(vec![
            obj(vec![("bytes", FastVal::Bytes(&blob))]),
            obj(vec![("bytes", FastVal::Bytes(&blob2))]),
        ]),
    )]);
    let blobs = extract_blobs(&root);
    assert_eq!(blobs, vec![blob.clone(), blob2.clone()]);
    let geo = FastVal::Arr(vec![
        obj(vec![("commandsBlob", FastVal::UInt(0)), ("windingRule", e("ODD")), ("styleID", FastVal::UInt(5))]),
        obj(vec![("commandsBlob", FastVal::UInt(1))]),
        obj(vec![("commandsBlob", FastVal::UInt(7))]),
    ]);
    let paths = get_geometry_paths(Some(&geo), &blobs);
    assert_eq!(paths.len(), 1);
    assert_eq!(paths[0].winding_rule, WindingRule::EvenOdd);
    assert_eq!(paths[0].style_id, 5);
    assert_eq!(
        paths[0].commands,
        vec![PathCommand::MoveTo { x: 1.0f32.to_bits(), y: 2.0f32.to_bits() }]
    );
    assert!(get_geometry_paths(None, &blobs).is_empty());
    assert!(get_vector_geometry(Some(&obj(vec![("vectorNetworkBlob", FastVal::UInt(3))])), &blobs).is_none());
}

#[test]
fn extract_node_reads_fields_and_defaults() {
    let raw = obj(vec![
        ("guid", guid(1, 2)),
        ("type", e("TEXT")),
        ("name", s("Title")),
        ("phase", e("REMOVED")),
        ("strokeAlign", e("OUTSIDE")),
        ("size", obj(vec![("x", f(10.0)), ("y", f(20.0))])),
    ]);
    let n = extract_node(&raw, &[]);
    assert_eq!(n.guid, Some(NodeId::new(1, 2)));
    assert_eq!(n.node_type, NodeType::Text);
    assert_eq!(n.name, "Title");
    assert_eq!(n.phase, Some(NodePhase::Removed));
    assert_eq!(n.stroke_align, StrokeAlign::Outside);
    assert_eq!(n.size, Some(Vec2::new(fbits(10.0), fbits(20.0))));
    assert!(n.visible);
    assert!(!n.locked);
    assert_eq!(n.opacity, Number::Float(F32_ONE));
    assert_eq!(n.blend_mode, "PASS_THROUGH");
    assert_eq!(n.stroke_weight, Number::Float(F32_ZERO));
    assert_eq!(n.parent_id, None);
    let bare = extract_node(&obj(vec![]), &[]);
    assert_eq!(bare.node_type, NodeType::Unknown);
    assert_eq!(bare.name, "");
    assert_eq!(bare.stroke_align, StrokeAlign::Center);
}

#[test]
fn plain_value_accessors() {
    let o = obj(vec![("a", s("x")), ("b", FastVal::Bool(true)), ("a", s("second"))]);
    assert_eq!(get(&o, "a").and_then(as_str_of_v), Some("x"));
    assert_eq!(get(&o, "b").and_then(as_bool_v), Some(true));
    assert_eq!(get(&o, "c").map(|_| ()), None);
    assert_eq!(as_str_of_v(&e("CANVAS")), Some("CANVAS"));
    assert_eq!(as_bool_v(&s("true")), None);
}
