use fig_parser::document::extract_node;
use fig_parser::fastkiwi::FastVal;
use fig_parser::scene::{page_structure, PageStructure};
use fig_parser::tree::graph_report;
use fig_parser::types::{ChildList, FigDocument, FigHeader, FigNode, NodeId, NodePhase, Page};

fn node(s: u32, l: u32) -> FigNode {
    let mut n = extract_node(&FastVal::Obj(Vec::new()), &[]);
    n.guid = Some(NodeId::new(s, l));
    n
}

fn doc(nodes: Vec<FigNode>, lists: Vec<(NodeId, Vec<NodeId>)>) -> FigDocument {
    FigDocument {
        header: FigHeader { prelude: "fig-kiwi".to_string(), version: 1, schema_def_count: 0 },
        file_name: "t".to_string(),
        document_id: None,
        pages: Vec::new(),
        nodes,
        children_map: lists.into_iter().map(|(parent, children)| ChildList { parent, children }).collect(),
        image_hashes: Vec::new(),
        thumbnail: Vec::new(),
    }
}

fn id(s: u32, l: u32) -> NodeId {
    NodeId::new(s, l)
}

#[test]
fn children_come_before_parents() {
    let d = doc(
        vec![node(0, 1), node(1, 1), node(1, 2), node(1, 3)],
        vec![(id(0, 1), vec![id(1, 1), id(1, 3)]), (id(1, 1), vec![id(1, 2)])],
    );
    match page_structure(&d, id(0, 1)) {
        PageStructure::Tree(o) => {
            let drawn: Vec<(usize, Vec<usize>, usize)> =
                o.entries.iter().map(|e| (e.node, e.children.clone(), e.depth)).collect();
            assert_eq!(drawn, vec![(2, vec![], 1), (1, vec![0], 0), (3, vec![], 0)]);
            assert_eq!(o.roots, vec![1, 2]);
        }
        other => panic!("expected a tree, got {:?}", other),
    }
}

#[test]
fn removed_nodes_drop_their_subtree() {
    let mut removed = node(1, 1);
    removed.phase = Some(NodePhase::Removed);
    let d = doc(
        vec![node(0, 1), removed, node(1, 2), node(1, 3)],
        vec![(id(0, 1), vec![id(1, 1), id(1, 3), id(9, 9)]), (id(1, 1), vec![id(1, 2)])],
    );
    match page_structure(&d, id(0, 1)) {
        PageStructure::Tree(o) => {
            assert_eq!(o.entries.len(), 1);
            assert_eq!(o.entries[0].node, 3);
            assert_eq!(o.roots, vec![0]);
        }
        other => panic!("expected a tree, got {:?}", other),
    }
}

#[test]
fn page_without_children_has_no_tree() {
    let d = doc(vec![node(0, 1)], vec![]);
    assert!(matches!(page_structure(&d, id(0, 1)), PageStructure::NoTree));
    let only_missing = doc(vec![node(0, 1)], vec![(id(0, 1), vec![id(5, 5)])]);
    assert!(matches!(page_structure(&only_missing, id(0, 1)), PageStructure::NoTree));
}

#[test]
fn cycles_are_reported_as_endless() {
    let d = doc(
        vec![node(0, 1), node(1, 1), node(1, 2)],
        vec![(id(0, 1), vec![id(1, 1)]), (id(1, 1), vec![id(1, 2)]), (id(1, 2), vec![id(1, 1)])],
    );
    assert!(matches!(page_structure(&d, id(0, 1)), PageStructure::Endless));
}

#[test]
fn last_node_with_an_id_is_drawn() {
    let d = doc(vec![node(1, 1), node(1, 1)], vec![(id(0, 1), vec![id(1, 1)])]);
    match page_structure(&d, id(0, 1)) {
        PageStructure::Tree(o) => assert_eq!(o.entries[0].node, 1),
        other => panic!("expected a tree, got {:?}", other),
    }
}

#[test]
fn subtrees_are_appended_with_children_after_the_earlier_entries() {
    let d = doc(
        vec![node(0, 1), node(1, 1), node(1, 2), node(1, 3), node(1, 4), node(1, 5)],
        vec![
            (id(0, 1), vec![id(1, 1), id(1, 3)]),
            (id(1, 1), vec![id(1, 2)]),
            (id(1, 3), vec![id(1, 4), id(1, 5)]),
        ],
    );
    match page_structure(&d, id(0, 1)) {
        PageStructure::Tree(o) => {
            let drawn: Vec<(usize, Vec<usize>, usize)> =
                o.entries.iter().map(|e| (e.node, e.children.clone(), e.depth)).collect();
            assert_eq!(
                drawn,
                vec![(2, vec![], 1), (1, vec![0], 0), (4, vec![], 1), (5, vec![], 1), (3, vec![2, 3], 0)]
            );
            assert_eq!(o.roots, vec![1, 4]);
            // The second root's subtree starts after the first one ends.
            for &c in &o.entries[4].children {
                assert!(2 <= c && c < 4);
            }
        }
        other => panic!("expected a tree, got {:?}", other),
    }
}

#[test]
fn graph_report_counts_cycles_repeats_reach_and_orphans() {
    let mut d = doc(
        vec![node(0, 1), node(1, 1), node(1, 2), node(1, 3), node(1, 4), node(9, 9)],
        vec![
            (id(0, 1), vec![id(1, 1), id(1, 2)]),
            (id(1, 1), vec![id(1, 3), id(1, 1)]),
            (id(1, 2), vec![id(1, 3)]),
            (id(9, 9), vec![id(1, 4)]),
        ],
    );
    d.pages = vec![
        Page { id: id(0, 1), name: "Page 1".to_string() },
        Page { id: id(5, 5), name: "Empty".to_string() },
    ];
    let r = graph_report(&d);
    assert_eq!(r.self_cycles, 1);
    assert_eq!(r.cycle_nodes, vec![id(1, 1)]);
    assert_eq!(r.multi_parent, 2);
    assert_eq!(r.pages.len(), 2);
    assert_eq!((r.pages[0].page, r.pages[0].direct, r.pages[0].reachable, r.pages[0].depth), (id(0, 1), 2, 3, 2));
    assert_eq!((r.pages[1].page, r.pages[1].direct, r.pages[1].reachable, r.pages[1].depth), (id(5, 5), 0, 0, 0));
    assert_eq!(r.orphaned, 1);
}

#[test]
fn graph_walk_depth_follows_the_stack_order() {
    // The last child is walked first, so a node first reached through a
    // longer path keeps that depth.
    let mut d = doc(
        vec![node(0, 1), node(1, 1), node(1, 2), node(1, 3)],
        vec![(id(0, 1), vec![id(1, 3), id(1, 1)]), (id(1, 1), vec![id(1, 2)]), (id(1, 2), vec![id(1, 3)])],
    );
    d.pages = vec![Page { id: id(0, 1), name: "P".to_string() }];
    let r = graph_report(&d);
    assert_eq!((r.pages[0].direct, r.pages[0].reachable, r.pages[0].depth), (2, 3, 3));
    assert_eq!(r.multi_parent, 1);
    assert_eq!(r.orphaned, 0);
}
