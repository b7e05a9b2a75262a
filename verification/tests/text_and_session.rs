use fig_parser::document::parse_u64;
use fig_parser::fastkiwi::keep_field;
use fig_parser::session::{
    close_tab, document_id_text, is_fig_path, node_id_text, open_tab, startup_path, TabInfo,
};
use fig_parser::svg::{base64_encode, esc};
use fig_parser::types::{NodeId, NodeType};

fn tab(id: &str) -> TabInfo {
    TabInfo { document_id: id.to_string(), path: format!("/{}.fig", id), name: id.to_string(), active_page: 0 }
}

fn ids(tabs: &[TabInfo]) -> Vec<String> {
    tabs.iter().map(|t| t.document_id.clone()).collect()
}

#[test]
fn esc_replaces_markup_characters() {
    assert_eq!(esc("a<b>&\"c\"'"), "a&lt;b&gt;&amp;&quot;c&quot;'");
    assert_eq!(esc(""), "");
    assert_eq!(esc("&amp;"), "&amp;amp;");
}

#[test]
fn base64_matches_rfc4648_vectors() {
    assert_eq!(base64_encode(b""), "");
    assert_eq!(base64_encode(b"f"), "Zg==");
    assert_eq!(base64_encode(b"fo"), "Zm8=");
    assert_eq!(base64_encode(b"foo"), "Zm9v");
    assert_eq!(base64_encode(b"foob"), "Zm9vYg==");
    assert_eq!(base64_encode(b"fooba"), "Zm9vYmE=");
    assert_eq!(base64_encode(b"foobar"), "Zm9vYmFy");
    assert_eq!(base64_encode(&[0xfb, 0xff]), "+/8=");
}

#[test]
fn base64_length_law_on_samples() {
    for n in 0..20usize {
        let data: Vec<u8> = (0..n as u8).collect();
        assert_eq!(base64_encode(&data).len(), (n + 2) / 3 * 4);
    }
}

#[test]
fn close_tab_drops_tab_and_moves_active() {
    let mut tabs = vec![tab("a"), tab("b"), tab("c")];
    let mut active = Some("b".to_string());
    close_tab(&mut tabs, &mut active, "b");
    assert_eq!(ids(&tabs), vec!["a", "c"]);
    assert_eq!(active, Some("a".to_string()));
    close_tab(&mut tabs, &mut active, "c");
    assert_eq!(ids(&tabs), vec!["a"]);
    assert_eq!(active, Some("a".to_string()));
    close_tab(&mut tabs, &mut active, "a");
    assert!(tabs.is_empty());
    assert_eq!(active, None);
}

#[test]
fn closing_unknown_tab_changes_nothing() {
    let mut tabs = vec![tab("a")];
    let mut active = Some("a".to_string());
    close_tab(&mut tabs, &mut active, "zzz");
    assert_eq!(ids(&tabs), vec!["a"]);
    assert_eq!(active, Some("a".to_string()));
}

#[test]
fn open_then_close_restores_tabs() {
    let mut tabs = vec![tab("a"), tab("b")];
    let mut active = Some("a".to_string());
    open_tab(&mut tabs, &mut active, tab("n"));
    assert_eq!(active, Some("n".to_string()));
    assert_eq!(ids(&tabs), vec!["a", "b", "n"]);
    close_tab(&mut tabs, &mut active, "n");
    assert_eq!(ids(&tabs), vec!["a", "b"]);
    assert_eq!(active, Some("a".to_string()));
}

#[test]
fn document_ids_are_hex() {
    assert_eq!(document_id_text(0x5f3e_1a2b, 0x1f), "doc-5f3e1a2b-1f");
    assert_eq!(document_id_text(0, 0), "doc-0-0");
}

#[test]
fn node_ids_as_text() {
    assert_eq!(node_id_text(NodeId::new(0, 1)), "0:1");
    assert_eq!(node_id_text(NodeId::new(4294967295, 10)), "4294967295:10");
}

#[test]
fn fig_paths_match_case_insensitively() {
    assert!(is_fig_path("design.fig"));
    assert!(is_fig_path("C:\\X\\DESIGN.FIG"));
    assert!(!is_fig_path("fig"));
    assert!(!is_fig_path("design.figma"));
    let args = vec!["viewer".to_string(), "--flag".to_string(), "a.Fig".to_string(), "b.fig".to_string()];
    assert_eq!(startup_path(&args), Some("a.Fig".to_string()));
    assert_eq!(startup_path(&vec!["x.fig".to_string()]), None);
}

#[test]
fn position_keys_parse_as_u64() {
    assert_eq!(parse_u64("0"), Some(0));
    assert_eq!(parse_u64("+42"), Some(42));
    assert_eq!(parse_u64("18446744073709551615"), Some(u64::MAX));
    assert_eq!(parse_u64("18446744073709551616"), None);
    assert_eq!(parse_u64(""), None);
    assert_eq!(parse_u64("+"), None);
    assert_eq!(parse_u64("END"), None);
    assert_eq!(parse_u64("-1"), None);
}

#[test]
fn node_types_from_schema_names() {
    assert_eq!(NodeType::from_str("FRAME"), NodeType::Frame);
    assert_eq!(NodeType::from_str("BOOLEAN_GROUP"), NodeType::BooleanGroup);
    assert_eq!(NodeType::from_str("frame"), NodeType::Unknown);
}

#[test]
fn keep_set_selects_document_fields() {
    assert!(keep_field("nodeChanges"));
    assert!(keep_field("fillPaints"));
    assert!(!keep_field("pluginData"));
}

fn unescape(t: &str) -> String {
    t.replace("&lt;", "<").replace("&gt;", ">").replace("&quot;", "\"").replace("&amp;", "&")
}

#[test]
fn esc_round_trips_and_leaves_no_markup() {
    for s in ["", "plain", "a<b>&\"c\"'", "&amp;&lt;", "\u{e9}<\u{1F600}>"] {
        let e = esc(s);
        assert!(!e.contains('<') && !e.contains('>') && !e.contains('"'));
        for (i, _) in e.match_indices('&') {
            let rest = &e[i..];
            assert!(rest.starts_with("&amp;") || rest.starts_with("&lt;") || rest.starts_with("&gt;") || rest.starts_with("&quot;"));
        }
        assert_eq!(unescape(&e), s);
    }
}

fn b64_value(c: u8) -> u32 {
    match c {
        b'A'..=b'Z' => (c - b'A') as u32,
        b'a'..=b'z' => (c - b'a') as u32 + 26,
        b'0'..=b'9' => (c - b'0') as u32 + 52,
        b'+' => 62,
        b'/' => 63,
        _ => 0,
    }
}

fn b64_decode(t: &str) -> Vec<u8> {
    let mut out = Vec::new();
    for g in t.as_bytes().chunks(4) {
        let n = (b64_value(g[0]) << 18) | (b64_value(g[1]) << 12) | (b64_value(g[2]) << 6) | b64_value(g[3]);
        out.push((n >> 16) as u8);
        if g[2] != b'=' {
            out.push((n >> 8) as u8);
        }
        if g[3] != b'=' {
            out.push(n as u8);
        }
    }
    out
}

#[test]
fn base64_padding_alphabet_and_round_trip() {
    for n in 0..20usize {
        let data: Vec<u8> = (0..n).map(|i| (i * 37 + 250) as u8).collect();
        let t = base64_encode(&data);
        let pad = (3 - n % 3) % 3;
        let body = &t[..t.len() - pad];
        assert!(t[t.len() - pad..].chars().all(|c| c == '='));
        assert!(body.chars().all(|c| c.is_ascii_alphanumeric() || c == '+' || c == '/'));
        assert_eq!(b64_decode(&t), data);
    }
}
