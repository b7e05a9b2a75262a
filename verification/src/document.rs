//! Document tree construction from the decoded Kiwi message.

use vstd::prelude::*;
use crate::fastkiwi::{FastVal, KValue, kget, vals, lemma_vals_index};
use crate::nodes::{
    arr_of, as_array_ref, as_str_of, blobs_of, blobs_view, bool_field, bool_of, bool_or, clips_content_of,
    corner_radii_of, effects_of, extract_blobs, geometry_paths_of, get_clips_content, get_corner_radii,
    get_effects, get_geometry_paths, get_guid, get_matrix, get_paints, get_parent_index, get_text_data, get_vector,
    get_vector_geometry, guid_of, matrix_of, num_field, num_of, num_or, paints_of, parent_index_of, str_of,
    text_data_of, vector_geometry_of, vector_of, node_type_field, get_node_type,
};
use crate::types::{
    FigNode, FigNodeView, NodePhase, Number, StrokeAlign, opt_str_view, F32_ONE, F32_ZERO,
};
use crate::text::{str_eq, owned};
use crate::error::ParseError;
use crate::meta::{MetaFields, MetaView, meta_document_id, meta_file_name};
use crate::tree::{
    build_children_map, child_lists_view, children_map_matches, collect_pages, node_views, pages_of, pages_view,
};
use crate::types::{FigDocument, FigHeader};

verus! {

/// The phase a schema name stands for.
pub open spec fn phase_of(s: Option<Seq<char>>) -> Option<NodePhase> {
    if s == Some("CREATED"@) {
        Some(NodePhase::Created)
    } else if s == Some("REMOVED"@) {
        Some(NodePhase::Removed)
    } else {
        None
    }
}

/// The stroke alignment a schema name stands for; centered by default.
pub open spec fn stroke_align_of(s: Option<Seq<char>>) -> StrokeAlign {
    if s == Some("INSIDE"@) {
        StrokeAlign::Inside
    } else if s == Some("OUTSIDE"@) {
        StrokeAlign::Outside
    } else {
        StrokeAlign::Center
    }
}

pub open spec fn str_or(o: Option<Seq<char>>, d: Seq<char>) -> Seq<char> {
    match o {
        Some(s) => s,
        None => d,
    }
}

/// A node change, read into a document node (without its parent link, which
/// is resolved over all nodes).
pub open spec fn node_of(raw: KValue, blobs: Seq<Seq<u8>>) -> FigNodeView {
    FigNodeView {
        guid: guid_of(raw, "guid"@),
        node_type: node_type_field(raw),
        name: str_or(str_of(raw, "name"@), Seq::empty()),
        phase: phase_of(str_of(raw, "phase"@)),
        parent_id: None,
        position: None,
        visible: bool_or(bool_of(raw, "visible"@), true),
        opacity: num_or(num_of(raw, "opacity"@), Number::Float(F32_ONE)),
        locked: bool_or(bool_of(raw, "locked"@), false),
        size: vector_of(raw, "size"@),
        transform: matrix_of(raw, "transform"@),
        corner_radius: num_of(raw, "cornerRadius"@),
        corner_radii: corner_radii_of(raw),
        clips_content: clips_content_of(raw),
        blend_mode: str_or(str_of(raw, "blendMode"@), "PASS_THROUGH"@),
        fill_paints: paints_of(raw, "fillPaints"@),
        background_paints: paints_of(raw, "backgroundPaints"@),
        stroke_paints: paints_of(raw, "strokePaints"@),
        stroke_weight: num_or(num_of(raw, "strokeWeight"@), Number::Float(F32_ZERO)),
        stroke_align: stroke_align_of(str_of(raw, "strokeAlign"@)),
        effects: effects_of(raw),
        fill_geometry: geometry_paths_of(kget(raw, "fillGeometry"@), blobs),
        stroke_geometry: geometry_paths_of(kget(raw, "strokeGeometry"@), blobs),
        vector_geometry: vector_geometry_of(kget(raw, "vectorData"@), blobs),
        text_data: text_data_of(raw),
    }
}

fn str_field_or(raw: &FastVal, name: &str, d: &str) -> (r: String)
    ensures
        r@ == str_or(str_of(raw.val(), name@), d@),
{
    match as_str_of(raw, name) {
        Some(s) => owned(s),
        None => owned(d),
    }
}

/// Read one node change into a document node.
pub fn extract_node(raw: &FastVal, blobs: &[Vec<u8>]) -> (r: FigNode)
    ensures
        r@ == node_of(raw.val(), blobs_view(blobs@)),
{
    let phase_name = as_str_of(raw, "phase");
    let phase = match phase_name {
        Some(s) => if str_eq(s, "CREATED") {
            Some(NodePhase::Created)
        } else if str_eq(s, "REMOVED") {
            Some(NodePhase::Removed)
        } else {
            None
        },
        None => None,
    };
    let stroke_align = match as_str_of(raw, "strokeAlign") {
        Some(s) => if str_eq(s, "INSIDE") {
            StrokeAlign::Inside
        } else if str_eq(s, "OUTSIDE") {
            StrokeAlign::Outside
        } else {
            StrokeAlign::Center
        },
        None => StrokeAlign::Center,
    };
    let name = match as_str_of(raw, "name") {
        Some(s) => owned(s),
        None => {
            let e = owned("");
            proof {
                reveal_strlit("");
                assert(e@ =~= Seq::<char>::empty());
            }
            e
        },
    };
    FigNode {
        guid: get_guid(raw, "guid"),
        node_type: get_node_type(raw),
        name,
        phase,
        parent_id: None,
        position: None,
        visible: match bool_field(raw, "visible") {
            Some(b) => b,
            None => true,
        },
        opacity: match num_field(raw, "opacity") {
            Some(n) => n,
            None => Number::Float(F32_ONE),
        },
        locked: match bool_field(raw, "locked") {
            Some(b) => b,
            None => false,
        },
        size: get_vector(raw, "size"),
        transform: get_matrix(raw, "transform"),
        corner_radius: num_field(raw, "cornerRadius"),
        corner_radii: get_corner_radii(raw),
        clips_content: get_clips_content(raw),
        blend_mode: str_field_or(raw, "blendMode", "PASS_THROUGH"),
        fill_paints: get_paints(raw, "fillPaints"),
        background_paints: get_paints(raw, "backgroundPaints"),
        stroke_paints: get_paints(raw, "strokePaints"),
        stroke_weight: match num_field(raw, "strokeWeight") {
            Some(n) => n,
            None => Number::Float(F32_ZERO),
        },
        stroke_align,
        effects: get_effects(raw),
        fill_geometry: get_geometry_paths(raw.get("fillGeometry"), blobs),
        stroke_geometry: get_geometry_paths(raw.get("strokeGeometry"), blobs),
        vector_geometry: get_vector_geometry(raw.get("vectorData"), blobs),
        text_data: get_text_data(raw),
    }
}

/// The decimal value of a sequence of digit characters.
pub open spec fn digits_value(d: Seq<char>) -> int
    decreases d.len(),
{
    if d.len() == 0 {
        0
    } else {
        digits_value(d.drop_last()) * 10 + (d.last() as int - 48)
    }
}

pub open spec fn all_digits(d: Seq<char>) -> bool {
    forall|i: int| 0 <= i < d.len() ==> '0' <= #[trigger] d[i] <= '9'
}

/// `u64::from_str`: an optional `+`, then one or more decimal digits whose
/// value fits in a `u64`.
pub open spec fn parse_u64_spec(s: Seq<char>) -> Option<u64> {
    let d = if s.len() > 0 && s[0] == '+' { s.drop_first() } else { s };
    if d.len() > 0 && all_digits(d) && digits_value(d) <= u64::MAX {
        Some(digits_value(d) as u64)
    } else {
        None
    }
}

proof fn lemma_digits_value_nonneg(d: Seq<char>)
    requires
        all_digits(d),
    ensures
        digits_value(d) >= 0,
    decreases d.len(),
{
    if d.len() > 0 {
        assert(all_digits(d.drop_last()));
        lemma_digits_value_nonneg(d.drop_last());
    }
}

proof fn lemma_digits_value_mono(d: Seq<char>, j: int)
    requires
        all_digits(d),
        0 <= j <= d.len(),
    ensures
        digits_value(d.take(j)) <= digits_value(d),
    decreases d.len() - j,
{
    if j < d.len() {
        lemma_digits_value_mono(d, j + 1);
        let t = d.take(j + 1);
        assert(t.drop_last() =~= d.take(j));
        assert(all_digits(d.take(j)));
        lemma_digits_value_nonneg(d.take(j));
    } else {
        assert(d.take(j) =~= d);
    }
}

/// Parse a position key as `u64`.
pub fn parse_u64(s: &str) -> (r: Option<u64>)
    ensures
        r == parse_u64_spec(s@),
{
    let n = s.unicode_len();
    let ghost t = s@;
    let mut i: usize = 0;
    if n > 0 && s.get_char(0) == '+' {
        i = 1;
    }
    let start = i;
    let ghost d = if t.len() > 0 && t[0] == '+' { t.drop_first() } else { t };
    assert(d =~= t.subrange(start as int, t.len() as int));
    if start >= n {
        return None;
    }
    let mut value: u64 = 0;
    while i < n
        invariant
            n == t.len(),
            t == s@,
            start <= i <= n,
            start < n,
            d == t.subrange(start as int, t.len() as int),
            d == (if t.len() > 0 && t[0] == '+' { t.drop_first() } else { t }),
            all_digits(d.take(i - start)),
            value as int == digits_value(d.take(i - start)),
        decreases n - i,
    {
        let c = s.get_char(i);
        if !('0' <= c && c <= '9') {
            assert(d[i - start] == c);
            return None;
        }
        let ghost k = (i - start) as int;
        assert(d.take(k + 1).drop_last() =~= d.take(k));
        assert(d.take(k + 1).last() == c);
        assert(all_digits(d.take(k + 1)));
        let digit = (c as u32 - 48) as u64;
        let next = match value.checked_mul(10) {
            Some(v) => v.checked_add(digit),
            None => None,
        };
        match next {
            Some(v) => {
                value = v;
            },
            None => {
                proof {
                    assert(digits_value(d.take(k + 1)) == value * 10 + digit);
                    assert(digits_value(d.take(k + 1)) > u64::MAX);
                    if all_digits(d) {
                        lemma_digits_value_mono(d, k + 1);
                    }
                }
                return None;
            },
        }
        i = i + 1;
    }
    assert(d.take(n - start) =~= d);
    Some(value)
}


/// A node change read into a document node, linked to its parent when it
/// names one.
pub open spec fn linked_node_of(raw: KValue, blobs: Seq<Seq<u8>>) -> FigNodeView {
    let n = node_of(raw, blobs);
    match parent_index_of(raw) {
        Some((p, pos)) => FigNodeView { parent_id: Some(p), position: Some(pos), ..n },
        None => n,
    }
}

/// The `nodeChanges` array of the root message; empty when absent.
pub open spec fn node_changes_of(root: KValue) -> Seq<KValue> {
    match arr_of(root, "nodeChanges"@) {
        Some(a) => a,
        None => Seq::empty(),
    }
}

/// The document's nodes: one per node change, in order.
pub open spec fn document_nodes(root: KValue) -> Seq<FigNodeView> {
    node_changes_of(root).map_values(|raw: KValue| linked_node_of(raw, blobs_of(root)))
}

pub open spec fn strings_view(s: Seq<String>) -> Seq<Seq<char>> {
    s.map_values(|t: String| t@)
}

/// The names of a list of named byte entries.
pub open spec fn entry_names(s: Seq<(String, Vec<u8>)>) -> Seq<Seq<char>> {
    s.map_values(|e: (String, Vec<u8>)| e.0@)
}

/// The names in order of first appearance, each once: the keys of a map
/// filled with the entries in order.
pub open spec fn unique_names(s: Seq<Seq<char>>) -> Seq<Seq<char>>
    decreases s.len(),
{
    if s.len() == 0 {
        Seq::empty()
    } else {
        let p = unique_names(s.drop_last());
        if p.contains(s.last()) { p } else { p.push(s.last()) }
    }
}

/// `doc` is the document built from the root message `root` and the
/// container's other parts: its nodes are the node changes in order, its
/// children map and pages are those of its nodes, and the rest is copied.
pub open spec fn is_built_document(
    doc: FigDocument,
    root: KValue,
    schema_def_count: usize,
    meta: MetaView,
    thumbnail: Seq<u8>,
    image_names: Seq<Seq<char>>,
    prelude: Seq<char>,
    version: u32,
) -> bool {
    &&& node_views(doc.nodes@) == document_nodes(root)
    &&& children_map_matches(child_lists_view(doc.children_map@), node_views(doc.nodes@))
    &&& pages_view(doc.pages@) == pages_of(node_views(doc.nodes@))
    &&& doc.header.prelude@ == prelude
    &&& doc.header.version == version
    &&& doc.header.schema_def_count == schema_def_count
    &&& doc.file_name@ == meta_file_name(meta)
    &&& opt_str_view(doc.document_id) == meta_document_id(meta)
    &&& strings_view(doc.image_hashes@) == unique_names(image_names)
    &&& doc.thumbnail@ == thumbnail
}

/// Read every node change, linking each to its parent.
pub fn extract_nodes(root: &FastVal) -> (r: Vec<FigNode>)
    ensures
        node_views(r@) == document_nodes(root.val()),
{
    let blobs = extract_blobs(root);
    let empty: Vec<FastVal> = Vec::new();
    let changes: &Vec<FastVal> = match root.get("nodeChanges") {
        Some(v) => match as_array_ref(v) {
            Some(a) => a,
            None => &empty,
        },
        None => &empty,
    };
    proof {
        lemma_vals_index(changes@);
        assert(vals(changes@) == node_changes_of(root.val()));
    }
    let ghost a = vals(changes@);
    let ghost bl = blobs_of(root.val());
    let mut out: Vec<FigNode> = Vec::new();
    let mut i: usize = 0;
    while i < changes.len()
        invariant
            a == vals(changes@),
            a == node_changes_of(root.val()),
            a.len() == changes@.len(),
            forall|k: int| 0 <= k < changes@.len() ==> #[trigger] a[k] == changes@[k].val(),
            blobs_view(blobs@) == bl,
            bl == blobs_of(root.val()),
            i <= changes.len(),
            out.len() == i,
            forall|k: int| 0 <= k < i ==> (#[trigger] out@[k])@ == linked_node_of(a[k], bl),
        decreases changes.len() - i,
    {
        let raw = &changes[i];
        let mut node = extract_node(raw, blobs.as_slice());
        match get_parent_index(raw) {
            Some((p, pos)) => {
                node.parent_id = Some(p);
                node.position = Some(pos);
            },
            None => {},
        }
        assert(node@ == linked_node_of(a[i as int], bl));
        out.push(node);
        i = i + 1;
    }
    assert(node_views(out@) =~= document_nodes(root.val()));
    out
}

/// Build the document from the decoded root message, the meta fields, the
/// thumbnail, the images (hash and bytes) and the container header.
pub fn build_document(
    root: &FastVal,
    schema_def_count: usize,
    meta: &MetaFields,
    thumbnail: &[u8],
    images: &Vec<(String, Vec<u8>)>,
    prelude: &str,
    version: u32,
) -> (r: Result<FigDocument, ParseError>)
    ensures
        r matches Ok(doc) && is_built_document(
            doc,
            root.val(),
            schema_def_count,
            meta@,
            thumbnail@,
            entry_names(images@),
            prelude@,
            version,
        ),
{
    let file_name = match &meta.file_name {
        Some(s) => s.clone(),
        None => owned("Untitled"),
    };
    let document_id = if meta.has_document_id {
        meta.document_id.clone()
    } else {
        meta.file_id.clone()
    };
    let nodes = extract_nodes(root);
    let children_map = build_children_map(&nodes);
    let pages = collect_pages(&nodes);
    let mut image_hashes: Vec<String> = Vec::new();
    let mut i: usize = 0;
    while i < images.len()
        invariant
            i <= images.len(),
            strings_view(image_hashes@) == unique_names(entry_names(images@.take(i as int))),
        decreases images.len() - i,
    {
        let ghost before = image_hashes@;
        let name = &images[i].0;
        let mut seen = false;
        let mut j: usize = 0;
        while j < image_hashes.len()
            invariant
                j <= image_hashes.len(),
                seen <==> exists|k: int| 0 <= k < j && (#[trigger] image_hashes@[k])@ == name@,
            decreases image_hashes.len() - j,
        {
            if str_eq(image_hashes[j].as_str(), name.as_str()) {
                seen = true;
            }
            j = j + 1;
        }
        let ghost names = entry_names(images@.take(i + 1));
        proof {
            assert(names.drop_last() =~= entry_names(images@.take(i as int)));
            assert(names.last() == name@);
            let p = strings_view(before);
            if seen {
                let k = choose|k: int| 0 <= k < j && (#[trigger] image_hashes@[k])@ == name@;
                assert(p[k] == name@);
            } else {
                assert forall|k: int| 0 <= k < p.len() implies p[k] != name@ by {
                    assert(p[k] == image_hashes@[k]@);
                }
            }
        }
        if !seen {
            image_hashes.push(name.clone());
            assert(strings_view(image_hashes@) =~= strings_view(before).push(name@));
        }
        i = i + 1;
    }
    assert(images@.take(images@.len() as int) =~= images@);
    Ok(FigDocument {
        header: FigHeader { prelude: owned(prelude), version, schema_def_count },
        file_name,
        document_id,
        pages,
        nodes,
        children_map,
        image_hashes,
        thumbnail: vstd::slice::slice_to_vec(thumbnail),
    })
}

} // verus!
