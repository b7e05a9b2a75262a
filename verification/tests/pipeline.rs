use fig_parser::archive::{extract_images, find_image, read_archive, FigArchive};
use fig_parser::binary::parse_canvas_fig;
use fig_parser::error::{CanvasError, KiwiError, ParseError};
use fig_parser::fastkiwi::decode_root;
use fig_parser::kiwi::decode_and_extract;
use fig_parser::meta::{read_meta, MetaFields};
use fig_parser::schema::Schema;
use fig_parser::types::{FigDocument, NodeId, NodeType};
use fig_parser::{parse_archive, parse_bytes};
use std::io::Write;

fn cstr(out: &mut Vec<u8>, s: &str) {
    out.extend_from_slice(s.as_bytes());
    out.push(0);
}

fn varuint(out: &mut Vec<u8>, mut v: u32) {
    loop {
        let byte = (v & 127) as u8;
        v >>= 7;
        if v == 0 {
            out.push(byte);
            return;
        }
        out.push(byte | 128);
    }
}

fn zigzag(v: i32) -> u32 {
    ((v << 1) ^ (v >> 31)) as u32
}

fn field(out: &mut Vec<u8>, name: &str, type_id: i32, is_array: bool, value: u32) {
    cstr(out, name);
    varuint(out, zigzag(type_id));
    out.push(is_array as u8);
    varuint(out, value);
}

/// A small schema: GUID, ParentIndex, NodeType, NodeChange, Message.
fn schema_bytes() -> Vec<u8> {
    let mut s = Vec::new();
    varuint(&mut s, 5);
    cstr(&mut s, "GUID");
    s.push(1);
    varuint(&mut s, 2);
    field(&mut s, "sessionID", -4, false, 1);
    field(&mut s, "localID", -4, false, 2);
    cstr(&mut s, "ParentIndex");
    s.push(1);
    varuint(&mut s, 2);
    field(&mut s, "guid", 0, false, 1);
    field(&mut s, "position", -6, false, 2);
    cstr(&mut s, "NodeType");
    s.push(0);
    varuint(&mut s, 3);
    field(&mut s, "DOCUMENT", 0, false, 0);
    field(&mut s, "CANVAS", 0, false, 1);
    field(&mut s, "FRAME", 0, false, 2);
    cstr(&mut s, "NodeChange");
    s.push(2);
    varuint(&mut s, 4);
    field(&mut s, "guid", 0, false, 1);
    field(&mut s, "parentIndex", 1, false, 2);
    field(&mut s, "type", 2, false, 3);
    field(&mut s, "name", -6, false, 4);
    cstr(&mut s, "Message");
    s.push(2);
    varuint(&mut s, 1);
    field(&mut s, "nodeChanges", 3, true, 1);
    s
}

fn node(out: &mut Vec<u8>, id: (u32, u32), parent: Option<((u32, u32), &str)>, kind: u32, name: &str) {
    varuint(out, 1);
    varuint(out, id.0);
    varuint(out, id.1);
    if let Some((p, pos)) = parent {
        varuint(out, 2);
        varuint(out, p.0);
        varuint(out, p.1);
        cstr(out, pos);
    }
    varuint(out, 3);
    varuint(out, kind);
    varuint(out, 4);
    cstr(out, name);
    varuint(out, 0);
}

/// A document, a page with four frames whose positions sort numerically,
/// and an internal-only canvas.
fn message_bytes() -> Vec<u8> {
    let mut m = Vec::new();
    varuint(&mut m, 1);
    varuint(&mut m, 7);
    node(&mut m, (0, 0), None, 0, "Document");
    node(&mut m, (0, 1), Some(((0, 0), "0")), 1, "Page 1");
    node(&mut m, (1, 2), Some(((0, 1), "2")), 2, "B");
    node(&mut m, (1, 3), Some(((0, 1), "10")), 2, "C");
    node(&mut m, (1, 4), Some(((0, 1), "1")), 2, "A");
    node(&mut m, (1, 5), Some(((0, 1), "END")), 2, "Z");
    node(&mut m, (0, 2), Some(((0, 0), "1")), 1, "Internal Only Canvas");
    varuint(&mut m, 0);
    m
}

fn deflate(data: &[u8]) -> Vec<u8> {
    let mut e = flate2::write::DeflateEncoder::new(Vec::new(), flate2::Compression::default());
    e.write_all(data).unwrap();
    e.finish().unwrap()
}

fn canvas(message: Vec<u8>) -> Vec<u8> {
    let mut c = b"fig-kiwi".to_vec();
    c.extend_from_slice(&35u32.to_le_bytes());
    let s = deflate(&schema_bytes());
    c.extend_from_slice(&(s.len() as u32).to_le_bytes());
    c.extend_from_slice(&s);
    c.extend_from_slice(&(message.len() as u32).to_le_bytes());
    c.extend_from_slice(&message);
    c
}

fn zip_of(entries: &[(&str, &[u8])]) -> Vec<u8> {
    let mut w = zip::ZipWriter::new(std::io::Cursor::new(Vec::new()));
    let opts = zip::write::SimpleFileOptions::default().compression_method(zip::CompressionMethod::Stored);
    for (name, data) in entries {
        w.start_file(*name, opts).unwrap();
        w.write_all(data).unwrap();
    }
    w.finish().unwrap().into_inner()
}

fn id(s: u32, l: u32) -> NodeId {
    NodeId::new(s, l)
}

fn children_of(doc: &FigDocument, parent: NodeId) -> Vec<NodeId> {
    doc.children_map.iter().find(|c| c.parent == parent).map(|c| c.children.clone()).unwrap_or_default()
}

fn sample_document() -> FigDocument {
    let fig = zip_of(&[
        ("canvas.fig", &canvas(deflate(&message_bytes()))),
        ("meta.json", br#"{"file_name":"Shop","file_id":"abc"}"#),
        ("thumbnail.png", b"PNG"),
        ("images/ff00", b"img-a"),
    ]);
    parse_bytes(&fig).unwrap()
}

#[test]
fn schema_decodes_definitions() {
    let schema = Schema::decode(&schema_bytes()).unwrap();
    assert_eq!(schema.def_count(), 5);
    assert_eq!(schema.def_index("Message"), Some(4));
    assert_eq!(schema.defs[3].fields.len(), 4);
}

#[test]
fn schema_rejects_bad_bytes() {
    assert_eq!(Schema::decode(&[1, 65, 0, 9, 0]).unwrap_err(), KiwiError::SchemaRejected);
}

#[test]
fn decode_root_reads_node_changes() {
    let schema = Schema::decode(&schema_bytes()).unwrap();
    let msg = message_bytes();
    let root = decode_root(&schema, &msg).unwrap();
    let changes = root.get("nodeChanges").unwrap().as_array().unwrap();
    assert_eq!(changes.len(), 7);
    assert_eq!(changes[1].get("name").unwrap().as_str(), Some("Page 1"));
    assert_eq!(changes[1].get("type").unwrap().as_str(), Some("CANVAS"));
    assert_eq!(changes[2].get("guid").unwrap().get("localID").unwrap().as_u64(), Some(2));
}

#[test]
fn decode_root_reports_truncation() {
    let schema = Schema::decode(&schema_bytes()).unwrap();
    let mut msg = message_bytes();
    msg.truncate(10);
    assert!(decode_root(&schema, &msg).is_err());
}

#[test]
fn children_sorted_by_numeric_position() {
    let doc = sample_document();
    assert_eq!(children_of(&doc, id(0, 1)), vec![id(1, 4), id(1, 2), id(1, 3), id(1, 5)]);
    assert_eq!(children_of(&doc, id(0, 0)), vec![id(0, 1), id(0, 2)]);
}

#[test]
fn children_map_has_one_list_per_parent_in_first_seen_order() {
    let doc = sample_document();
    let parents: Vec<NodeId> = doc.children_map.iter().map(|c| c.parent).collect();
    assert_eq!(parents, vec![id(0, 0), id(0, 1)]);
}

#[test]
fn tree_links_every_parented_node() {
    let doc = sample_document();
    for n in &doc.nodes {
        if let (Some(p), Some(g)) = (n.parent_id, n.guid) {
            assert!(children_of(&doc, p).contains(&g));
        }
    }
    for list in &doc.children_map {
        for c in &list.children {
            assert!(doc.nodes.iter().any(|n| n.guid == Some(*c) && n.parent_id == Some(list.parent)));
        }
    }
}

#[test]
fn pages_skip_internal_canvas() {
    let doc = sample_document();
    assert_eq!(doc.pages.len(), 1);
    assert_eq!(doc.pages[0].id, id(0, 1));
    assert_eq!(doc.pages[0].name, "Page 1");
}

#[test]
fn document_fields_from_container() {
    let doc = sample_document();
    assert_eq!(doc.nodes.len(), 7);
    assert_eq!(doc.header.version, 35);
    assert_eq!(doc.header.prelude, "fig-kiwi");
    assert_eq!(doc.header.schema_def_count, 5);
    assert_eq!(doc.file_name, "Shop");
    assert_eq!(doc.document_id, Some("abc".to_string()));
    assert_eq!(doc.thumbnail, b"PNG".to_vec());
    assert_eq!(doc.image_hashes, vec!["ff00".to_string()]);
    assert_eq!(doc.nodes[2].node_type, NodeType::Frame);
    assert_eq!(doc.nodes[2].position, Some("2".to_string()));
    assert_eq!(doc.nodes[2].parent_id, Some(id(0, 1)));
    assert_eq!(doc.nodes[0].parent_id, None);
}

#[test]
fn zstd_message_is_decoded() {
    let packed = zstd::stream::encode_all(std::io::Cursor::new(message_bytes()), 3).unwrap();
    let fig = zip_of(&[("canvas.fig", &canvas(packed))]);
    let doc = parse_bytes(&fig).unwrap();
    assert_eq!(doc.nodes.len(), 7);
    assert_eq!(doc.file_name, "Untitled");
    assert_eq!(doc.document_id, None);
}

#[test]
fn meta_document_id_wins_over_file_id() {
    let m = read_meta(br#"{"document_id":"d1","file_id":"f1"}"#).unwrap();
    assert!(m.has_document_id);
    assert_eq!(m.document_id, Some("d1".to_string()));
    let null_id = read_meta(br#"{"document_id":null,"file_id":"f1"}"#).unwrap();
    assert!(null_id.has_document_id);
    assert_eq!(null_id.document_id, None);
    let empty = read_meta(b"").unwrap();
    assert!(empty.file_name.is_none() && !empty.has_document_id);
    assert!(matches!(read_meta(b"{not json"), Err(ParseError::MetaJson(_))));
}

#[test]
fn document_id_null_key_blocks_file_id() {
    let fig = zip_of(&[
        ("canvas.fig", &canvas(deflate(&message_bytes()))),
        ("meta.json", br#"{"document_id":null,"file_id":"f1"}"#),
    ]);
    assert_eq!(parse_bytes(&fig).unwrap().document_id, None);
}

#[test]
fn missing_canvas_is_reported() {
    let fig = zip_of(&[("meta.json", b"{}")]);
    match parse_bytes(&fig) {
        Err(ParseError::MissingEntry(name)) => assert_eq!(name, "canvas.fig"),
        other => panic!("unexpected {:?}", other.map(|d| d.nodes.len())),
    }
}

#[test]
fn not_a_zip_is_a_zip_error() {
    assert!(matches!(parse_bytes(b"hello"), Err(ParseError::Zip(_))));
}

#[test]
fn bad_meta_json_fails_first() {
    let fig = zip_of(&[("canvas.fig", b"short"), ("meta.json", b"[")]);
    assert!(matches!(parse_bytes(&fig), Err(ParseError::MetaJson(_))));
}

#[test]
fn canvas_errors() {
    assert!(matches!(parse_canvas_fig(b"short"), Err(ParseError::Other(CanvasError::TooSmall))));
    let mut one_chunk = b"fig-kiwi".to_vec();
    one_chunk.extend_from_slice(&1u32.to_le_bytes());
    one_chunk.extend_from_slice(&2u32.to_le_bytes());
    one_chunk.extend_from_slice(&[1, 2]);
    assert!(matches!(parse_canvas_fig(&one_chunk), Err(ParseError::Other(CanvasError::TooFewChunks(1)))));
    let mut bad = b"fig-kiwi".to_vec();
    bad.extend_from_slice(&1u32.to_le_bytes());
    for _ in 0..2 {
        bad.extend_from_slice(&1u32.to_le_bytes());
        bad.push(0xff);
    }
    assert!(matches!(parse_canvas_fig(&bad), Err(ParseError::Deflate(_))));
    let mut bad_zstd = b"fig-kiwi".to_vec();
    bad_zstd.extend_from_slice(&1u32.to_le_bytes());
    let s = deflate(b"x");
    bad_zstd.extend_from_slice(&(s.len() as u32).to_le_bytes());
    bad_zstd.extend_from_slice(&s);
    bad_zstd.extend_from_slice(&5u32.to_le_bytes());
    bad_zstd.extend_from_slice(&[0x28, 0xB5, 0x2F, 0xFD, 0]);
    assert!(matches!(parse_canvas_fig(&bad_zstd), Err(ParseError::Zstd(_))));
}

#[test]
fn canvas_header_fields() {
    let c = parse_canvas_fig(&canvas(deflate(&message_bytes()))).unwrap();
    assert_eq!(c.prelude, "fig-kiwi");
    assert_eq!(c.version, 35);
    assert_eq!(c.schema_bytes, schema_bytes());
    assert_eq!(c.message_bytes, message_bytes());
}

#[test]
fn schema_rejection_surfaces() {
    let mut c = b"fig-kiwi".to_vec();
    c.extend_from_slice(&1u32.to_le_bytes());
    for part in [deflate(&[1, 65, 0, 9, 0]), deflate(&message_bytes())] {
        c.extend_from_slice(&(part.len() as u32).to_le_bytes());
        c.extend_from_slice(&part);
    }
    let fig = zip_of(&[("canvas.fig", &c)]);
    assert!(matches!(parse_bytes(&fig), Err(ParseError::SchemaDecode(KiwiError::SchemaRejected))));
}

#[test]
fn archive_classifies_entries() {
    let fig = zip_of(&[
        ("meta.json", b"{\"a\":1}"),
        ("images/", b"ignored"),
        ("other.txt", b"ignored"),
        ("images/h1", b"first"),
        ("canvas.fig", b"two"),
        ("images/h2", b"second"),
        ("thumbnail.png", b"t"),
    ]);
    let a: FigArchive = read_archive(&fig).unwrap();
    assert_eq!(a.canvas_fig, b"two".to_vec());
    assert_eq!(a.meta_json, b"{\"a\":1}".to_vec());
    assert_eq!(a.thumbnail, b"t".to_vec());
    assert_eq!(
        a.images,
        vec![("h1".to_string(), b"first".to_vec()), ("h2".to_string(), b"second".to_vec())]
    );
    assert_eq!(find_image(&a.images, "h2"), Some(b"second".to_vec()));
    assert_eq!(find_image(&a.images, "h3"), None);
    assert_eq!(extract_images(&fig).unwrap().len(), 2);
}

#[test]
fn build_document_from_parts() {
    let arch = FigArchive {
        canvas_fig: canvas(deflate(&message_bytes())),
        meta_json: Vec::new(),
        thumbnail: Vec::new(),
        images: vec![("aa".to_string(), vec![1]), ("bb".to_string(), vec![2])],
    };
    let doc = parse_archive(arch).unwrap();
    assert_eq!(doc.image_hashes, vec!["aa".to_string(), "bb".to_string()]);
    let direct = decode_and_extract(
        &schema_bytes(),
        &message_bytes(),
        &MetaFields::empty(),
        b"",
        &Vec::new(),
        "fig-kiwi",
        7,
    )
    .unwrap();
    assert_eq!(direct.header.version, 7);
    assert_eq!(direct.nodes.len(), 7);
}

#[test]
fn fields_outside_keep_set_are_skipped() {
    let mut schema = Vec::new();
    varuint(&mut schema, 1);
    cstr(&mut schema, "Message");
    schema.push(2);
    varuint(&mut schema, 2);
    field(&mut schema, "name", -6, false, 1);
    field(&mut schema, "pluginData", -6, false, 2);
    let schema = Schema::decode(&schema).unwrap();
    let mut msg = Vec::new();
    varuint(&mut msg, 2);
    cstr(&mut msg, "hidden");
    varuint(&mut msg, 1);
    cstr(&mut msg, "shown");
    varuint(&mut msg, 0);
    let root = decode_root(&schema, &msg).unwrap();
    assert_eq!(root.get("name").unwrap().as_str(), Some("shown"));
    assert!(root.get("pluginData").is_none());
}

#[test]
fn trailing_bytes_after_two_chunks_are_ignored() {
    let base = canvas(deflate(&message_bytes()));
    let mut longer = base.clone();
    longer.extend_from_slice(&[3, 0, 0, 0, 1, 2, 3, 9, 9]);
    let a = parse_canvas_fig(&base).unwrap();
    let b = parse_canvas_fig(&longer).unwrap();
    assert_eq!(a.prelude, b.prelude);
    assert_eq!(a.version, b.version);
    assert_eq!(a.schema_bytes, b.schema_bytes);
    assert_eq!(a.message_bytes, b.message_bytes);
}

#[test]
fn deflated_entries_are_read() {
    let mut w = zip::ZipWriter::new(std::io::Cursor::new(Vec::new()));
    let opts = zip::write::SimpleFileOptions::default().compression_method(zip::CompressionMethod::Deflated);
    let body = vec![42u8; 4096];
    w.start_file("images/big", opts).unwrap();
    w.write_all(&body).unwrap();
    w.start_file("canvas.fig", opts).unwrap();
    w.write_all(b"payload").unwrap();
    let fig = w.finish().unwrap().into_inner();
    let a = read_archive(&fig).unwrap();
    assert_eq!(a.canvas_fig, b"payload".to_vec());
    assert_eq!(a.images, vec![("big".to_string(), body)]);
}

#[test]
fn parse_error_messages() {
    assert_eq!(
        ParseError::SchemaDecode(KiwiError::UnterminatedString).message(),
        "Schema decode failed: unterminated string"
    );
    assert_eq!(
        ParseError::InvalidPrelude("abc".to_string()).message(),
        "Invalid or missing prelude: expected 'fig-kiwi', got 'abc'"
    );
    assert_eq!(ParseError::MissingEntry("canvas.fig".to_string()).message(), "Missing required ZIP entry: canvas.fig");
    assert_eq!(ParseError::Other(CanvasError::TooSmall).message(), "canvas.fig too small (< 12 bytes)");
    assert_eq!(ParseError::Other(CanvasError::TooFewChunks(1)).message(), "Expected at least 2 chunks, got 1");
    assert_eq!(ParseError::Zip("bad".to_string()).message(), "Failed to open ZIP archive: bad");
}

#[test]
fn repeated_image_names_are_listed_once() {
    let arch = FigArchive {
        canvas_fig: canvas(deflate(&message_bytes())),
        meta_json: Vec::new(),
        thumbnail: Vec::new(),
        images: vec![
            ("aa".to_string(), vec![1]),
            ("bb".to_string(), vec![2]),
            ("aa".to_string(), vec![3]),
        ],
    };
    let doc = parse_archive(arch).unwrap();
    assert_eq!(doc.image_hashes, vec!["aa".to_string(), "bb".to_string()]);
}

#[test]
fn outside_error_texts_are_carried() {
    let bad_json = b"{\"file_name\": ";
    let expected = serde_json::from_slice::<serde_json::Value>(bad_json).unwrap_err().to_string();
    match read_meta(bad_json) {
        Err(ParseError::MetaJson(m)) => assert_eq!(m, expected),
        other => panic!("expected a JSON error, got {:?}", other.map(|_| ())),
    }
    let junk = b"not a zip file at all";
    let expected = zip::ZipArchive::new(std::io::Cursor::new(&junk[..])).err().unwrap().to_string();
    match parse_bytes(junk) {
        Err(ParseError::Zip(m)) => assert_eq!(m, expected),
        other => panic!("expected a ZIP error, got {:?}", other.map(|_| ())),
    }
    let mut bad = canvas(deflate(&message_bytes()));
    bad.truncate(12);
    bad.extend_from_slice(&[2, 0, 0, 0, 0xff, 0xff, 1, 0, 0, 0, 0]);
    let mut out = Vec::new();
    let expected = std::io::Read::read_to_end(&mut flate2::read::DeflateDecoder::new(&[0xffu8, 0xff][..]), &mut out)
        .unwrap_err()
        .to_string();
    match parse_canvas_fig(&bad) {
        Err(ParseError::Deflate(m)) => assert_eq!(m, expected),
        other => panic!("expected a deflate error, got {:?}", other.map(|_| ())),
    }
}

#[test]
fn meta_keys_are_read_from_the_top_level() {
    let m = read_meta(b"{\"file_name\": \"F\", \"document_id\": 5, \"file_id\": \"X\"}").unwrap();
    assert_eq!(m.file_name, Some("F".to_string()));
    assert!(m.has_document_id);
    assert_eq!(m.document_id, None);
    assert_eq!(m.file_id, Some("X".to_string()));
    let n = read_meta(b"{\"inner\": {\"file_name\": \"G\"}}").unwrap();
    assert_eq!(n.file_name, None);
    assert!(!n.has_document_id);
}
