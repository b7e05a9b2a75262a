//! Core types of the Figma document model.

use vstd::prelude::*;
use crate::text::str_eq;
use crate::geometry::{GeometryPath, GeometryPathView};

verus! {

/// A node's globally unique identifier: session and local id.
#[derive(Debug, Clone, Copy, PartialEq, Eq, Structural, Hash)]
pub struct NodeId {
    pub session_id: u32,
    pub local_id: u32,
}

impl NodeId {
    pub fn new(session_id: u32, local_id: u32) -> (r: Self)
        ensures
            r.session_id == session_id,
            r.local_id == local_id,
    {
        NodeId { session_id, local_id }
    }
}

/// A number as the Kiwi message stores it. `Float` holds the `f32` bit
/// pattern; readers convert to floating point at the edge.
#[derive(Debug, Clone, Copy, PartialEq, Eq, Structural)]
pub enum Number {
    Int(i32),
    UInt(u32),
    Float(u32),
    Int64(i64),
    UInt64(u64),
}

/// The bit pattern of the `f32` value 0.0.
pub const F32_ZERO: u32 = 0;
/// The bit pattern of the `f32` value 1.0.
pub const F32_ONE: u32 = 0x3F80_0000;
/// The bit pattern of the `f32` value 16.0.
pub const F32_SIXTEEN: u32 = 0x4180_0000;
/// The bit pattern of the `f32` value 400.0.
pub const F32_FOUR_HUNDRED: u32 = 0x43C8_0000;

/// The kind of a node, from the `type` field of a node change.
#[derive(Debug, Clone, Copy, PartialEq, Eq, Structural)]
pub enum NodeType {
    Document,
    Canvas,
    Frame,
    Group,
    Text,
    Rectangle,
    Ellipse,
    Line,
    Polygon,
    Star,
    Vector,
    BooleanGroup,
    Component,
    ComponentSet,
    Instance,
    Section,
    RoundedRectangle,
    Table,
    Widget,
    Stamp,
    Unknown,
}

/// The node type that a schema enum name stands for.
pub open spec fn node_type_of(s: Seq<char>) -> NodeType {
    if s == "DOCUMENT"@ { NodeType::Document }
    else if s == "CANVAS"@ { NodeType::Canvas }
    else if s == "FRAME"@ { NodeType::Frame }
    else if s == "GROUP"@ { NodeType::Group }
    else if s == "TEXT"@ { NodeType::Text }
    else if s == "RECTANGLE"@ { NodeType::Rectangle }
    else if s == "ELLIPSE"@ { NodeType::Ellipse }
    else if s == "LINE"@ { NodeType::Line }
    else if s == "POLYGON"@ { NodeType::Polygon }
    else if s == "STAR"@ { NodeType::Star }
    else if s == "VECTOR"@ { NodeType::Vector }
    else if s == "BOOLEAN_GROUP"@ { NodeType::BooleanGroup }
    else if s == "COMPONENT"@ { NodeType::Component }
    else if s == "COMPONENT_SET"@ { NodeType::ComponentSet }
    else if s == "INSTANCE"@ { NodeType::Instance }
    else if s == "SECTION"@ { NodeType::Section }
    else if s == "ROUNDED_RECTANGLE"@ { NodeType::RoundedRectangle }
    else if s == "TABLE"@ { NodeType::Table }
    else if s == "WIDGET"@ { NodeType::Widget }
    else if s == "STAMP"@ { NodeType::Stamp }
    else { NodeType::Unknown }
}

impl NodeType {
    pub fn from_str(s: &str) -> (r: Self)
        ensures
            r == node_type_of(s@),
    {
        if str_eq(s, "DOCUMENT") { NodeType::Document }
        else if str_eq(s, "CANVAS") { NodeType::Canvas }
        else if str_eq(s, "FRAME") { NodeType::Frame }
        else if str_eq(s, "GROUP") { NodeType::Group }
        else if str_eq(s, "TEXT") { NodeType::Text }
        else if str_eq(s, "RECTANGLE") { NodeType::Rectangle }
        else if str_eq(s, "ELLIPSE") { NodeType::Ellipse }
        else if str_eq(s, "LINE") { NodeType::Line }
        else if str_eq(s, "POLYGON") { NodeType::Polygon }
        else if str_eq(s, "STAR") { NodeType::Star }
        else if str_eq(s, "VECTOR") { NodeType::Vector }
        else if str_eq(s, "BOOLEAN_GROUP") { NodeType::BooleanGroup }
        else if str_eq(s, "COMPONENT") { NodeType::Component }
        else if str_eq(s, "COMPONENT_SET") { NodeType::ComponentSet }
        else if str_eq(s, "INSTANCE") { NodeType::Instance }
        else if str_eq(s, "SECTION") { NodeType::Section }
        else if str_eq(s, "ROUNDED_RECTANGLE") { NodeType::RoundedRectangle }
        else if str_eq(s, "TABLE") { NodeType::Table }
        else if str_eq(s, "WIDGET") { NodeType::Widget }
        else if str_eq(s, "STAMP") { NodeType::Stamp }
        else { NodeType::Unknown }
    }
}

#[derive(Debug, Clone, Copy, PartialEq, Eq, Structural)]
pub enum NodePhase {
    Created,
    Removed,
}

#[derive(Debug, Clone, Copy, PartialEq, Eq, Structural)]
pub enum PaintType {
    Solid,
    GradientLinear,
    GradientRadial,
    GradientAngular,
    GradientDiamond,
    Image,
    Emoji,
    Video,
}

#[derive(Debug, Clone, Copy, PartialEq, Eq, Structural)]
pub enum StrokeAlign {
    Center,
    Inside,
    Outside,
}

#[derive(Debug, Clone, Copy, PartialEq, Eq, Structural)]
pub enum EffectType {
    InnerShadow,
    DropShadow,
    ForegroundBlur,
    BackgroundBlur,
}

#[derive(Debug, Clone, Copy, PartialEq, Eq, Structural)]
pub struct Color {
    pub r: Number,
    pub g: Number,
    pub b: Number,
    pub a: Number,
}

#[derive(Debug, Clone, Copy, PartialEq, Eq, Structural)]
pub struct Vec2 {
    pub x: Number,
    pub y: Number,
}

impl Vec2 {
    pub fn new(x: Number, y: Number) -> (r: Self)
        ensures
            r.x == x,
            r.y == y,
    {
        Vec2 { x, y }
    }
}

/// A 2x3 affine transform.
#[derive(Debug, Clone, Copy, PartialEq, Eq, Structural)]
pub struct Matrix {
    pub m00: Number,
    pub m01: Number,
    pub m02: Number,
    pub m10: Number,
    pub m11: Number,
    pub m12: Number,
}

#[derive(Debug, Clone, Copy, PartialEq, Eq, Structural)]
pub struct ColorStop {
    pub color: Color,
    pub position: Number,
}

#[derive(Debug, Clone, Copy, PartialEq, Eq, Structural)]
pub struct Effect {
    pub effect_type: EffectType,
    pub color: Option<Color>,
    pub offset: Vec2,
    pub radius: Number,
    pub visible: bool,
    pub spread: Number,
}

#[derive(Debug, Clone, Copy, PartialEq, Eq, Structural)]
pub struct CornerRadii {
    pub top_left: Number,
    pub top_right: Number,
    pub bottom_right: Number,
    pub bottom_left: Number,
}

#[derive(Debug, Clone)]
pub struct Paint {
    pub paint_type: PaintType,
    pub color: Option<Color>,
    pub opacity: Number,
    pub visible: bool,
    pub stops: Vec<ColorStop>,
    pub transform: Option<Matrix>,
    pub image_hash: Option<String>,
    pub gradient_handles: Vec<Vec2>,
}

pub struct PaintView {
    pub paint_type: PaintType,
    pub color: Option<Color>,
    pub opacity: Number,
    pub visible: bool,
    pub stops: Seq<ColorStop>,
    pub transform: Option<Matrix>,
    pub image_hash: Option<Seq<char>>,
    pub gradient_handles: Seq<Vec2>,
}

pub open spec fn opt_str_view(o: Option<String>) -> Option<Seq<char>> {
    match o {
        Some(s) => Some(s@),
        None => None,
    }
}

impl View for Paint {
    type V = PaintView;

    open spec fn view(&self) -> PaintView {
        PaintView {
            paint_type: self.paint_type,
            color: self.color,
            opacity: self.opacity,
            visible: self.visible,
            stops: self.stops@,
            transform: self.transform,
            image_hash: opt_str_view(self.image_hash),
            gradient_handles: self.gradient_handles@,
        }
    }
}

/// The views of a sequence of paints.
pub open spec fn paints_view(s: Seq<Paint>) -> Seq<PaintView> {
    s.map_values(|p: Paint| p@)
}

#[derive(Debug, Clone)]
pub struct TextData {
    pub characters: String,
    pub font_family: Option<String>,
    pub font_weight: Number,
    pub font_size: Number,
    pub letter_spacing: Number,
    pub line_height: Option<Number>,
    pub fills: Vec<Paint>,
}

pub struct TextDataView {
    pub characters: Seq<char>,
    pub font_family: Option<Seq<char>>,
    pub font_weight: Number,
    pub font_size: Number,
    pub letter_spacing: Number,
    pub line_height: Option<Number>,
    pub fills: Seq<PaintView>,
}

impl View for TextData {
    type V = TextDataView;

    open spec fn view(&self) -> TextDataView {
        TextDataView {
            characters: self.characters@,
            font_family: opt_str_view(self.font_family),
            font_weight: self.font_weight,
            font_size: self.font_size,
            letter_spacing: self.letter_spacing,
            line_height: self.line_height,
            fills: paints_view(self.fills@),
        }
    }
}

#[derive(Debug, Clone)]
pub struct VectorGeometry {
    pub paths: Vec<GeometryPath>,
    pub normalized_size: Option<Vec2>,
}

pub struct VectorGeometryView {
    pub paths: Seq<GeometryPathView>,
    pub normalized_size: Option<Vec2>,
}

impl View for VectorGeometry {
    type V = VectorGeometryView;

    open spec fn view(&self) -> VectorGeometryView {
        VectorGeometryView { paths: paths_view(self.paths@), normalized_size: self.normalized_size }
    }
}

/// The views of a sequence of geometry paths.
pub open spec fn paths_view(s: Seq<GeometryPath>) -> Seq<GeometryPathView> {
    s.map_values(|p: GeometryPath| p@)
}

#[derive(Debug, Clone)]
pub struct FigNode {
    pub guid: Option<NodeId>,
    pub node_type: NodeType,
    pub name: String,
    pub phase: Option<NodePhase>,
    pub parent_id: Option<NodeId>,
    pub position: Option<String>,
    pub visible: bool,
    pub opacity: Number,
    pub locked: bool,
    pub size: Option<Vec2>,
    pub transform: Option<Matrix>,
    pub corner_radius: Option<Number>,
    pub corner_radii: Option<CornerRadii>,
    pub clips_content: bool,
    pub blend_mode: String,
    pub fill_paints: Vec<Paint>,
    pub background_paints: Vec<Paint>,
    pub stroke_paints: Vec<Paint>,
    pub stroke_weight: Number,
    pub stroke_align: StrokeAlign,
    pub effects: Vec<Effect>,
    pub fill_geometry: Vec<GeometryPath>,
    pub stroke_geometry: Vec<GeometryPath>,
    pub vector_geometry: Option<VectorGeometry>,
    pub text_data: Option<TextData>,
}

pub struct FigNodeView {
    pub guid: Option<NodeId>,
    pub node_type: NodeType,
    pub name: Seq<char>,
    pub phase: Option<NodePhase>,
    pub parent_id: Option<NodeId>,
    pub position: Option<Seq<char>>,
    pub visible: bool,
    pub opacity: Number,
    pub locked: bool,
    pub size: Option<Vec2>,
    pub transform: Option<Matrix>,
    pub corner_radius: Option<Number>,
    pub corner_radii: Option<CornerRadii>,
    pub clips_content: bool,
    pub blend_mode: Seq<char>,
    pub fill_paints: Seq<PaintView>,
    pub background_paints: Seq<PaintView>,
    pub stroke_paints: Seq<PaintView>,
    pub stroke_weight: Number,
    pub stroke_align: StrokeAlign,
    pub effects: Seq<Effect>,
    pub fill_geometry: Seq<GeometryPathView>,
    pub stroke_geometry: Seq<GeometryPathView>,
    pub vector_geometry: Option<VectorGeometryView>,
    pub text_data: Option<TextDataView>,
}

impl View for FigNode {
    type V = FigNodeView;

    open spec fn view(&self) -> FigNodeView {
        FigNodeView {
            guid: self.guid,
            node_type: self.node_type,
            name: self.name@,
            phase: self.phase,
            parent_id: self.parent_id,
            position: opt_str_view(self.position),
            visible: self.visible,
            opacity: self.opacity,
            locked: self.locked,
            size: self.size,
            transform: self.transform,
            corner_radius: self.corner_radius,
            corner_radii: self.corner_radii,
            clips_content: self.clips_content,
            blend_mode: self.blend_mode@,
            fill_paints: paints_view(self.fill_paints@),
            background_paints: paints_view(self.background_paints@),
            stroke_paints: paints_view(self.stroke_paints@),
            stroke_weight: self.stroke_weight,
            stroke_align: self.stroke_align,
            effects: self.effects@,
            fill_geometry: paths_view(self.fill_geometry@),
            stroke_geometry: paths_view(self.stroke_geometry@),
            vector_geometry: match self.vector_geometry {
                Some(v) => Some(v@),
                None => None,
            },
            text_data: match self.text_data {
                Some(t) => Some(t@),
                None => None,
            },
        }
    }
}

/// A page (top-level canvas) of the document.
#[derive(Debug, Clone)]
pub struct Page {
    pub id: NodeId,
    pub name: String,
}

impl View for Page {
    type V = (NodeId, Seq<char>);

    open spec fn view(&self) -> (NodeId, Seq<char>) {
        (self.id, self.name@)
    }
}

#[derive(Debug, Clone)]
pub struct FigHeader {
    pub prelude: String,
    pub version: u32,
    pub schema_def_count: usize,
}

/// The children of one parent, in z-order.
#[derive(Debug, Clone)]
pub struct ChildList {
    pub parent: NodeId,
    pub children: Vec<NodeId>,
}

impl View for ChildList {
    type V = (NodeId, Seq<NodeId>);

    open spec fn view(&self) -> (NodeId, Seq<NodeId>) {
        (self.parent, self.children@)
    }
}

#[derive(Debug, Clone)]
pub struct FigDocument {
    pub header: FigHeader,
    pub file_name: String,
    pub document_id: Option<String>,
    pub pages: Vec<Page>,
    pub nodes: Vec<FigNode>,
    /// Each parent that some node names, with its children; one entry per parent.
    pub children_map: Vec<ChildList>,
    pub image_hashes: Vec<String>,
    pub thumbnail: Vec<u8>,
}

} // verus!
