//! The structure of a page's render tree: which nodes it draws, in which
//! order, and how they nest. The renderer computes transforms and bounds on
//! top of this structure.

use vstd::prelude::*;
use std::collections::HashMap;
use crate::tree::{child_lists_view, id_key, lemma_id_key_injective, node_key, node_views};
use crate::types::{ChildList, FigDocument, FigNode, FigNodeView, NodeId, NodePhase};

verus! {

broadcast use vstd::std_specs::hash::group_hash_axioms;

/// One node of a render tree: the index of the document node it draws, the
/// positions of its children in the tree's node list, and its depth below
/// the page.
#[derive(Debug, Clone)]
pub struct RenderEntry {
    pub node: usize,
    pub children: Vec<usize>,
    pub depth: usize,
}

pub type EntryView = (usize, Seq<usize>, usize);

impl View for RenderEntry {
    type V = EntryView;

    open spec fn view(&self) -> EntryView {
        (self.node, self.children@, self.depth)
    }
}

pub open spec fn entries_view(s: Seq<RenderEntry>) -> Seq<EntryView> {
    s.map_values(|e: RenderEntry| e@)
}

/// For each id, the index of the last node with that id.
pub open spec fn guid_table(ns: Seq<FigNodeView>) -> Map<u64, usize>
    decreases ns.len(),
{
    if ns.len() == 0 {
        Map::empty()
    } else {
        let m = guid_table(ns.drop_last());
        match ns.last().guid {
            Some(g) => m.insert(id_key(g), (ns.len() - 1) as usize),
            None => m,
        }
    }
}

/// The index of the last node with id `id`.
pub open spec fn node_at(ns: Seq<FigNodeView>, id: NodeId) -> Option<usize> {
    if guid_table(ns).contains_key(id_key(id)) {
        Some(guid_table(ns)[id_key(id)])
    } else {
        None
    }
}

/// The child list of the first entry for `id` in a children map.
pub open spec fn children_listed(cm: Seq<(NodeId, Seq<NodeId>)>, id: NodeId) -> Option<Seq<NodeId>>
    decreases cm.len(),
{
    if cm.len() == 0 {
        None
    } else if cm[0].0 == id {
        Some(cm[0].1)
    } else {
        children_listed(cm.drop_first(), id)
    }
}

pub open spec fn kids_of(cm: Seq<(NodeId, Seq<NodeId>)>, id: NodeId) -> Seq<NodeId> {
    match children_listed(cm, id) {
        Some(k) => k,
        None => Seq::empty(),
    }
}

/// Adds the subtree of node `id` at `depth` to the node list `flat`,
/// children before their parent; gives the list and the subtree's position
/// in it (`None` for an id with no node, or a removed node). `None` overall
/// when the nesting runs deeper than `fuel`.
pub open spec fn render_node(
    ns: Seq<FigNodeView>,
    cm: Seq<(NodeId, Seq<NodeId>)>,
    id: NodeId,
    depth: nat,
    flat: Seq<EntryView>,
    fuel: nat,
) -> Option<(Seq<EntryView>, Option<usize>)>
    decreases fuel, 0nat, 0int,
{
    match node_at(ns, id) {
        None => Some((flat, None)),
        Some(idx) => if ns[idx as int].phase == Some(NodePhase::Removed) {
            Some((flat, None))
        } else if fuel == 0 {
            None
        } else {
            match render_list(ns, cm, kids_of(cm, id), 0, depth + 1, flat, Seq::empty(), (fuel - 1) as nat) {
                None => None,
                Some((f2, ci)) => Some((f2.push((idx, ci, depth as usize)), Some(f2.len() as usize))),
            }
        },
    }
}

/// Adds the subtrees of `kids[k..]` in order, collecting their positions
/// after `acc`.
pub open spec fn render_list(
    ns: Seq<FigNodeView>,
    cm: Seq<(NodeId, Seq<NodeId>)>,
    kids: Seq<NodeId>,
    k: int,
    depth: nat,
    flat: Seq<EntryView>,
    acc: Seq<usize>,
    fuel: nat,
) -> Option<(Seq<EntryView>, Seq<usize>)>
    decreases fuel, 1nat, kids.len() - k,
{
    if k < 0 || k >= kids.len() {
        Some((flat, acc))
    } else {
        match render_node(ns, cm, kids[k], depth, flat, fuel) {
            None => None,
            Some((f2, r)) => render_list(
                ns,
                cm,
                kids,
                k + 1,
                depth,
                f2,
                match r {
                    Some(i) => acc.push(i),
                    None => acc,
                },
                fuel,
            ),
        }
    }
}

/// The render tree of a page: its node list and the positions of the page's
/// own children in it.
#[derive(Debug, Clone)]
pub struct RenderOrder {
    pub entries: Vec<RenderEntry>,
    pub roots: Vec<usize>,
}

/// What a page's render tree is.
#[derive(Debug, Clone)]
pub enum PageStructure {
    /// The page has no children, or none of them is drawn.
    NoTree,
    Tree(RenderOrder),
    /// The nesting under the page runs deeper than there are nodes.
    Endless,
}

/// The render tree of page `page`, as a node list and root positions;
/// `Some(None)` when the page has no tree; `None` when the nesting runs
/// deeper than there are nodes.
pub open spec fn page_render(ns: Seq<FigNodeView>, cm: Seq<(NodeId, Seq<NodeId>)>, page: NodeId) -> Option<
    Option<(Seq<EntryView>, Seq<usize>)>,
> {
    match children_listed(cm, page) {
        None => Some(None),
        Some(kids) => match render_list(ns, cm, kids, 0, 0, Seq::empty(), Seq::empty(), ns.len()) {
            None => None,
            Some((flat, roots)) => if flat.len() == 0 {
                Some(None)
            } else {
                Some(Some((flat, roots)))
            },
        },
    }
}

proof fn lemma_guid_table_bounds(ns: Seq<FigNodeView>)
    requires
        ns.len() <= usize::MAX,
    ensures
        forall|k: u64| #[trigger] guid_table(ns).contains_key(k) ==> (guid_table(ns)[k] as int) < ns.len(),
    decreases ns.len(),
{
    if ns.len() > 0 {
        let prev = ns.drop_last();
        lemma_guid_table_bounds(prev);
        let t = guid_table(ns);
        assert forall|k: u64| #[trigger] t.contains_key(k) implies (t[k] as int) < ns.len() by {
            match ns.last().guid {
                Some(g) => {
                    if k != id_key(g) {
                        assert(guid_table(prev).contains_key(k));
                    }
                },
                None => {
                    assert(guid_table(prev).contains_key(k));
                },
            }
        }
    }
}

/// The last-node-per-id table, as a hash map keyed by packed id.
fn guid_lookup(nodes: &Vec<FigNode>) -> (m: HashMap<u64, usize>)
    ensures
        m@ == guid_table(node_views(nodes@)),
{
    let mut m: HashMap<u64, usize> = HashMap::new();
    let mut i: usize = 0;
    while i < nodes.len()
        invariant
            i <= nodes.len(),
            m@ == guid_table(node_views(nodes@.take(i as int))),
        decreases nodes.len() - i,
    {
        proof {
            assert(node_views(nodes@.take(i + 1)).drop_last() =~= node_views(nodes@.take(i as int)));
            assert(node_views(nodes@.take(i + 1)).last() == nodes@[i as int]@);
        }
        match nodes[i].guid {
            Some(g) => {
                m.insert(node_key(g), i);
            },
            None => {},
        }
        i = i + 1;
    }
    assert(nodes@.take(nodes@.len() as int) =~= nodes@);
    m
}

proof fn lemma_children_listed_at(cm: Seq<(NodeId, Seq<NodeId>)>, id: NodeId, j: int)
    requires
        0 <= j < cm.len(),
        cm[j].0 == id,
        forall|q: int| 0 <= q < j ==> (#[trigger] cm[q]).0 != id,
    ensures
        children_listed(cm, id) == Some(cm[j].1),
    decreases j,
{
    if j > 0 {
        assert(cm[0].0 != id);
        let rest = cm.drop_first();
        assert forall|q: int| 0 <= q < j - 1 implies (#[trigger] rest[q]).0 != id by {
            assert(rest[q] == cm[q + 1]);
        }
        lemma_children_listed_at(rest, id, j - 1);
    }
}

proof fn lemma_children_unlisted(cm: Seq<(NodeId, Seq<NodeId>)>, id: NodeId)
    requires
        forall|q: int| 0 <= q < cm.len() ==> (#[trigger] cm[q]).0 != id,
    ensures
        children_listed(cm, id) is None,
    decreases cm.len(),
{
    if cm.len() > 0 {
        assert(cm[0].0 != id);
        let rest = cm.drop_first();
        assert forall|q: int| 0 <= q < rest.len() implies (#[trigger] rest[q]).0 != id by {
            assert(rest[q] == cm[q + 1]);
        }
        lemma_children_unlisted(rest, id);
    }
}

/// The first list of each parent, as a hash map from packed parent id to the
/// list's position.
pub(crate) fn parent_lookup(lists: &Vec<ChildList>) -> (m: HashMap<u64, usize>)
    ensures
        forall|id: NodeId|
            #![trigger children_listed(child_lists_view(lists@), id)]
            match children_listed(child_lists_view(lists@), id) {
                Some(kids) => m@.contains_key(id_key(id)) && m@[id_key(id)] < lists@.len()
                    && lists@[m@[id_key(id)] as int].children@ == kids,
                None => !m@.contains_key(id_key(id)),
            },
{
    let ghost cm = child_lists_view(lists@);
    let mut m: HashMap<u64, usize> = HashMap::new();
    let mut i: usize = 0;
    while i < lists.len()
        invariant
            i <= lists.len(),
            cm == child_lists_view(lists@),
            forall|key: u64|
                #[trigger] m@.contains_key(key) ==> m@[key] < i && id_key(lists@[m@[key] as int].parent) == key
                    && forall|q: int| 0 <= q < m@[key] ==> id_key((#[trigger] lists@[q]).parent) != key,
            forall|q: int| 0 <= q < i ==> #[trigger] m@.contains_key(id_key(lists@[q].parent)),
        decreases lists.len() - i,
    {
        let key = node_key(lists[i].parent);
        if !m.contains_key(&key) {
            m.insert(key, i);
        }
        i = i + 1;
    }
    proof {
        assert forall|id: NodeId|
            #![trigger children_listed(cm, id)]
            match children_listed(cm, id) {
                Some(kids) => m@.contains_key(id_key(id)) && m@[id_key(id)] < lists@.len()
                    && lists@[m@[id_key(id)] as int].children@ == kids,
                None => !m@.contains_key(id_key(id)),
            } by {
            let key = id_key(id);
            if m@.contains_key(key) {
                let j = m@[key] as int;
                lemma_id_key_injective(lists@[j].parent, id);
                assert(cm[j] == lists@[j]@);
                assert forall|q: int| 0 <= q < j implies (#[trigger] cm[q]).0 != id by {
                    assert(cm[q] == lists@[q]@);
                    assert(id_key(lists@[q].parent) != key);
                }
                lemma_children_listed_at(cm, id, j);
            } else {
                assert forall|q: int| 0 <= q < cm.len() implies (#[trigger] cm[q]).0 != id by {
                    assert(cm[q] == lists@[q]@);
                    assert(m@.contains_key(id_key(lists@[q].parent)));
                }
                lemma_children_unlisted(cm, id);
            }
        }
    }
    m
}

/// A node list is a well-formed render tree: each entry draws an existing,
/// not removed node, and its children come earlier in the list, one level
/// deeper.
pub open spec fn entries_wf(ns: Seq<FigNodeView>, flat: Seq<EntryView>) -> bool {
    forall|p: int|
        0 <= p < flat.len() ==> {
            &&& (#[trigger] flat[p]).0 < ns.len()
            &&& ns[flat[p].0 as int].phase != Some(NodePhase::Removed)
            &&& forall|q: int|
                0 <= q < flat[p].1.len() ==> (#[trigger] flat[p].1[q] as int) < p && flat[flat[p].1[q] as int].2
                    == flat[p].2 + 1
        }
}

/// The positions `acc` name entries of `flat` at depth `depth`.
pub open spec fn positions_at(flat: Seq<EntryView>, acc: Seq<usize>, depth: nat) -> bool {
    forall|q: int| 0 <= q < acc.len() ==> (#[trigger] acc[q] as int) < flat.len() && flat[acc[q] as int].2 == depth
}

proof fn lemma_render_node_prefix(
    ns: Seq<FigNodeView>,
    cm: Seq<(NodeId, Seq<NodeId>)>,
    id: NodeId,
    depth: nat,
    flat: Seq<EntryView>,
    fuel: nat,
)
    ensures
        render_node(ns, cm, id, depth, flat, fuel) matches Some((f2, r)) ==> flat.is_prefix_of(f2),
    decreases fuel, 0nat, 0int,
{
    match node_at(ns, id) {
        None => {},
        Some(idx) => {
            if ns[idx as int].phase != Some(NodePhase::Removed) && fuel > 0 {
                let kids = kids_of(cm, id);
                lemma_render_list_prefix(ns, cm, kids, 0, depth + 1, flat, Seq::empty(), (fuel - 1) as nat);
                match render_list(ns, cm, kids, 0, depth + 1, flat, Seq::empty(), (fuel - 1) as nat) {
                    None => {},
                    Some((f2, ci)) => {
                        let f3 = f2.push((idx, ci, depth as usize));
                        assert forall|p: int| 0 <= p < flat.len() implies flat[p] == f3[p] by {
                            assert(f2[p] == flat[p]);
                        }
                    },
                }
            }
        },
    }
}

proof fn lemma_render_list_prefix(
    ns: Seq<FigNodeView>,
    cm: Seq<(NodeId, Seq<NodeId>)>,
    kids: Seq<NodeId>,
    k: int,
    depth: nat,
    flat: Seq<EntryView>,
    acc: Seq<usize>,
    fuel: nat,
)
    ensures
        render_list(ns, cm, kids, k, depth, flat, acc, fuel) matches Some((f2, a2)) ==> flat.is_prefix_of(f2),
    decreases fuel, 1nat, kids.len() - k,
{
    if 0 <= k < kids.len() {
        lemma_render_node_prefix(ns, cm, kids[k], depth, flat, fuel);
        match render_node(ns, cm, kids[k], depth, flat, fuel) {
            None => {},
            Some((f2, r)) => {
                let a2 = match r {
                    Some(i) => acc.push(i),
                    None => acc,
                };
                lemma_render_list_prefix(ns, cm, kids, k + 1, depth, f2, a2, fuel);
                match render_list(ns, cm, kids, k + 1, depth, f2, a2, fuel) {
                    None => {},
                    Some((f3, a3)) => {
                        assert forall|p: int| 0 <= p < flat.len() implies flat[p] == f3[p] by {
                            assert(f2[p] == flat[p]);
                            assert(f3[p] == f2[p]);
                        }
                    },
                }
            },
        }
    }
}

/// Adding a node's subtree only appends to the node list: the entry, when
/// there is one, comes last, and its children lie between the old end of
/// the list and the entry. A node that draws nothing leaves the list as is.
pub proof fn law_render_node_appends(
    ns: Seq<FigNodeView>,
    cm: Seq<(NodeId, Seq<NodeId>)>,
    id: NodeId,
    depth: nat,
    flat: Seq<EntryView>,
    fuel: nat,
)
    ensures
        render_node(ns, cm, id, depth, flat, fuel) matches Some((f2, r)) ==> {
            &&& flat.is_prefix_of(f2)
            &&& r is None ==> f2 == flat
            &&& r matches Some(i) ==> f2.len() <= usize::MAX ==> {
                &&& i as int == f2.len() - 1
                &&& flat.len() <= i
                &&& forall|q: int|
                    0 <= q < f2[i as int].1.len() ==> flat.len() <= (#[trigger] f2[i as int].1[q] as int) < i
            }
        },
    decreases fuel, 0nat, 0int,
{
    lemma_render_node_prefix(ns, cm, id, depth, flat, fuel);
    match node_at(ns, id) {
        None => {},
        Some(idx) => {
            if ns[idx as int].phase != Some(NodePhase::Removed) && fuel > 0 {
                let kids = kids_of(cm, id);
                law_render_list_appends(ns, cm, kids, 0, depth + 1, flat, Seq::empty(), (fuel - 1) as nat);
                match render_list(ns, cm, kids, 0, depth + 1, flat, Seq::empty(), (fuel - 1) as nat) {
                    None => {},
                    Some((f2, ci)) => {
                        let f3 = f2.push((idx, ci, depth as usize));
                        let i = f2.len() as int;
                        assert(f3[i].1 == ci);
                        assert(flat.len() <= f2.len());
                        assert forall|q: int| f3.len() <= usize::MAX && 0 <= q < f3[i].1.len() implies flat.len()
                            <= (#[trigger] f3[i].1[q] as int) < i by {
                            assert(f3[i].1[q] == ci[q]);
                            assert(f2.len() <= usize::MAX);
                        }
                    },
                }
            }
        },
    }
}

/// Adding the subtrees of a child list only appends: the positions it
/// collects after `acc` all lie between the old and the new end of the list.
pub proof fn law_render_list_appends(
    ns: Seq<FigNodeView>,
    cm: Seq<(NodeId, Seq<NodeId>)>,
    kids: Seq<NodeId>,
    k: int,
    depth: nat,
    flat: Seq<EntryView>,
    acc: Seq<usize>,
    fuel: nat,
)
    ensures
        render_list(ns, cm, kids, k, depth, flat, acc, fuel) matches Some((f2, a2)) ==> {
            &&& flat.is_prefix_of(f2)
            &&& acc.is_prefix_of(a2)
            &&& f2.len() <= usize::MAX ==> forall|q: int|
                acc.len() <= q < a2.len() ==> flat.len() <= (#[trigger] a2[q] as int) < f2.len()
        },
    decreases fuel, 1nat, kids.len() - k,
{
    lemma_render_list_prefix(ns, cm, kids, k, depth, flat, acc, fuel);
    if 0 <= k < kids.len() {
        law_render_node_appends(ns, cm, kids[k], depth, flat, fuel);
        match render_node(ns, cm, kids[k], depth, flat, fuel) {
            None => {},
            Some((f2, r)) => {
                let a2 = match r {
                    Some(i) => acc.push(i),
                    None => acc,
                };
                law_render_list_appends(ns, cm, kids, k + 1, depth, f2, a2, fuel);
                match render_list(ns, cm, kids, k + 1, depth, f2, a2, fuel) {
                    None => {},
                    Some((f3, a3)) => {
                        assert(acc.is_prefix_of(a3)) by {
                            assert forall|q: int| 0 <= q < acc.len() implies acc[q] == a3[q] by {
                                assert(a2[q] == acc[q]);
                            }
                        }
                        assert forall|q: int| f3.len() <= usize::MAX && acc.len() <= q < a3.len() implies flat.len()
                            <= (#[trigger] a3[q] as int) < f3.len() by {
                            assert(f2.len() <= f3.len());
                            if q < a2.len() {
                                assert(a3[q] == a2[q]);
                            }
                        }
                    },
                }
            },
        }
    } else {
        assert(acc.is_prefix_of(acc));
    }
}

proof fn lemma_render_node_wf(
    ns: Seq<FigNodeView>,
    cm: Seq<(NodeId, Seq<NodeId>)>,
    id: NodeId,
    depth: nat,
    flat: Seq<EntryView>,
    fuel: nat,
)
    requires
        ns.len() <= usize::MAX,
        depth + fuel <= usize::MAX,
        entries_wf(ns, flat),
    ensures
        render_node(ns, cm, id, depth, flat, fuel) matches Some((f2, r)) ==> (f2.len() <= usize::MAX ==> entries_wf(
            ns,
            f2,
        ) && (r matches Some(i) ==> (i as int) < f2.len() && f2[i as int].2 == depth)),
    decreases fuel, 0nat, 0int,
{
    lemma_guid_table_bounds(ns);
    match node_at(ns, id) {
        None => {},
        Some(idx) => {
            if ns[idx as int].phase != Some(NodePhase::Removed) && fuel > 0 {
                let kids = kids_of(cm, id);
                lemma_render_list_wf(ns, cm, kids, 0, depth + 1, flat, Seq::empty(), (fuel - 1) as nat);
                match render_list(ns, cm, kids, 0, depth + 1, flat, Seq::empty(), (fuel - 1) as nat) {
                    None => {},
                    Some((f2, ci)) => {
                        let f3 = f2.push((idx, ci, depth as usize));
                        if f3.len() <= usize::MAX {
                            assert(entries_wf(ns, f2) && positions_at(f2, ci, depth + 1));
                            assert forall|p: int| 0 <= p < f3.len() implies {
                                &&& (#[trigger] f3[p]).0 < ns.len()
                                &&& ns[f3[p].0 as int].phase != Some(NodePhase::Removed)
                                &&& forall|q: int|
                                    0 <= q < f3[p].1.len() ==> (#[trigger] f3[p].1[q] as int) < p && f3[f3[p].1[q] as int].2
                                        == f3[p].2 + 1
                            } by {
                                if p < f2.len() {
                                    assert(f3[p] == f2[p]);
                                    assert forall|q: int| 0 <= q < f3[p].1.len() implies (#[trigger] f3[p].1[q] as int) < p
                                        && f3[f3[p].1[q] as int].2 == f3[p].2 + 1 by {
                                        assert(f3[f2[p].1[q] as int] == f2[f2[p].1[q] as int]);
                                    }
                                } else {
                                    assert forall|q: int| 0 <= q < f3[p].1.len() implies (#[trigger] f3[p].1[q] as int) < p
                                        && f3[f3[p].1[q] as int].2 == f3[p].2 + 1 by {
                                        assert(f3[p].1 == ci);
                                        assert(f3[ci[q] as int] == f2[ci[q] as int]);
                                    }
                                }
                            }
                        }
                    },
                }
            }
        },
    }
}

proof fn lemma_render_list_wf(
    ns: Seq<FigNodeView>,
    cm: Seq<(NodeId, Seq<NodeId>)>,
    kids: Seq<NodeId>,
    k: int,
    depth: nat,
    flat: Seq<EntryView>,
    acc: Seq<usize>,
    fuel: nat,
)
    requires
        ns.len() <= usize::MAX,
        depth + fuel <= usize::MAX,
        entries_wf(ns, flat),
        positions_at(flat, acc, depth),
    ensures
        render_list(ns, cm, kids, k, depth, flat, acc, fuel) matches Some((f2, a2)) ==> (f2.len() <= usize::MAX
            ==> entries_wf(ns, f2) && positions_at(f2, a2, depth)),
    decreases fuel, 1nat, kids.len() - k,
{
    if 0 <= k < kids.len() {
        lemma_render_node_wf(ns, cm, kids[k], depth, flat, fuel);
        lemma_render_node_prefix(ns, cm, kids[k], depth, flat, fuel);
        match render_node(ns, cm, kids[k], depth, flat, fuel) {
            None => {},
            Some((f2, r)) => {
                let a2 = match r {
                    Some(i) => acc.push(i),
                    None => acc,
                };
                lemma_render_list_prefix(ns, cm, kids, k + 1, depth, f2, a2, fuel);
                match render_list(ns, cm, kids, k + 1, depth, f2, a2, fuel) {
                    None => {},
                    Some((f3, a3)) => {
                        if f3.len() <= usize::MAX {
                            assert(f2.len() <= f3.len());
                            assert(positions_at(f2, a2, depth)) by {
                                assert forall|q: int| 0 <= q < a2.len() implies (#[trigger] a2[q] as int) < f2.len()
                                    && f2[a2[q] as int].2 == depth by {
                                    if q < acc.len() {
                                        assert(a2[q] == acc[q]);
                                        assert(f2[acc[q] as int] == flat[acc[q] as int]);
                                    }
                                }
                            }
                            lemma_render_list_wf(ns, cm, kids, k + 1, depth, f2, a2, fuel);
                        }
                    },
                }
            },
        }
    }
}

/// The render tree of a page is well formed: each entry draws an existing,
/// not removed node, children come before their parent one level deeper,
/// and the roots are at depth zero.
pub proof fn law_render_tree_wf(ns: Seq<FigNodeView>, cm: Seq<(NodeId, Seq<NodeId>)>, page: NodeId)
    requires
        ns.len() <= usize::MAX,
    ensures
        page_render(ns, cm, page) matches Some(Some((flat, roots))) ==> (flat.len() <= usize::MAX ==> entries_wf(
            ns,
            flat,
        ) && positions_at(flat, roots, 0)),
{
    match children_listed(cm, page) {
        None => {},
        Some(kids) => {
            lemma_render_list_wf(ns, cm, kids, 0, 0, Seq::empty(), Seq::empty(), ns.len());
        },
    }
}

/// The document and its lookup tables, for walking a page.
struct Walk<'a> {
    nodes: &'a Vec<FigNode>,
    lists: &'a Vec<ChildList>,
    guids: HashMap<u64, usize>,
    parents: HashMap<u64, usize>,
}

impl<'a> Walk<'a> {
    spec fn ns(&self) -> Seq<FigNodeView> {
        node_views(self.nodes@)
    }

    spec fn cm(&self) -> Seq<(NodeId, Seq<NodeId>)> {
        child_lists_view(self.lists@)
    }

    spec fn wf(&self) -> bool {
        &&& self.guids@ == guid_table(self.ns())
        &&& forall|k: u64| #[trigger] self.guids@.contains_key(k) ==> (self.guids@[k] as int) < self.nodes@.len()
        &&& forall|id: NodeId|
            #![trigger children_listed(self.cm(), id)]
            match children_listed(self.cm(), id) {
                Some(kids) => self.parents@.contains_key(id_key(id)) && self.parents@[id_key(id)]
                    < self.lists@.len() && self.lists@[self.parents@[id_key(id)] as int].children@ == kids,
                None => !self.parents@.contains_key(id_key(id)),
            }
    }
}

/// Adds the subtree of node `id` to `flat`; `Err` when the nesting runs
/// deeper than `fuel`.
fn walk_node(w: &Walk, id: NodeId, depth: usize, flat: &mut Vec<RenderEntry>, fuel: usize) -> (r: Result<
    Option<usize>,
    (),
>)
    requires
        w.wf(),
        depth + fuel <= w.nodes@.len(),
    ensures
        match render_node(w.ns(), w.cm(), id, depth as nat, entries_view(old(flat)@), fuel as nat) {
            None => r is Err,
            Some((f2, res)) => r == Ok::<Option<usize>, ()>(res) && entries_view(final(flat)@) == f2,
        },
    decreases fuel, 0nat,
{
    let key = node_key(id);
    let idx = match w.guids.get(&key) {
        Some(i) => *i,
        None => return Ok(None),
    };
    assert(w.ns()[idx as int] == w.nodes@[idx as int]@);
    match w.nodes[idx].phase {
        Some(NodePhase::Removed) => return Ok(None),
        _ => {},
    }
    if fuel == 0 {
        return Err(());
    }
    let n = w.nodes.len();
    assert(depth + 1 <= n);
    let empty: Vec<NodeId> = Vec::new();
    let kids: &Vec<NodeId> = match w.parents.get(&key) {
        Some(j) => &w.lists[*j].children,
        None => &empty,
    };
    assert(kids@ == kids_of(w.cm(), id));
    let mut acc: Vec<usize> = Vec::new();
    walk_list(w, kids, depth + 1, flat, &mut acc, fuel - 1)?;
    let pos = flat.len();
    let ghost mid = entries_view(flat@);
    let ghost accv = acc@;
    flat.push(RenderEntry { node: idx, children: acc, depth });
    assert(entries_view(flat@) =~= mid.push((idx, accv, depth)));
    Ok(Some(pos))
}

/// Adds the subtrees of `kids` in order, collecting their positions in `acc`.
fn walk_list(
    w: &Walk,
    kids: &Vec<NodeId>,
    depth: usize,
    flat: &mut Vec<RenderEntry>,
    acc: &mut Vec<usize>,
    fuel: usize,
) -> (r: Result<(), ()>)
    requires
        w.wf(),
        depth + fuel <= w.nodes@.len(),
    ensures
        match render_list(w.ns(), w.cm(), kids@, 0, depth as nat, entries_view(old(flat)@), old(acc)@, fuel as nat) {
            None => r is Err,
            Some((f2, a2)) => r is Ok && entries_view(final(flat)@) == f2 && final(acc)@ == a2,
        },
    decreases fuel, 1nat,
{
    let ghost goal = render_list(w.ns(), w.cm(), kids@, 0, depth as nat, entries_view(flat@), acc@, fuel as nat);
    let mut k: usize = 0;
    while k < kids.len()
        invariant
            w.wf(),
            depth + fuel <= w.nodes@.len(),
            k <= kids.len(),
            goal == render_list(w.ns(), w.cm(), kids@, 0, depth as nat, entries_view(old(flat)@), old(acc)@, fuel as nat),
            goal == render_list(w.ns(), w.cm(), kids@, k as int, depth as nat, entries_view(flat@), acc@, fuel as nat),
        decreases kids.len() - k,
    {
        let ghost fl = entries_view(flat@);
        let ghost ac = acc@;
        match walk_node(w, kids[k], depth, flat, fuel) {
            Err(()) => {
                assert(render_node(w.ns(), w.cm(), kids@[k as int], depth as nat, fl, fuel as nat) is None);
                assert(render_list(w.ns(), w.cm(), kids@, k as int, depth as nat, fl, ac, fuel as nat) is None);
                return Err(());
            },
            Ok(r) => {
                match r {
                    Some(i) => acc.push(i),
                    None => {},
                }
            },
        }
        k = k + 1;
    }
    Ok(())
}

/// The render tree of page `page`: the structure of what the renderer draws
/// for it.
pub fn page_structure(doc: &FigDocument, page: NodeId) -> (r: PageStructure)
    ensures
        match page_render(node_views(doc.nodes@), child_lists_view(doc.children_map@), page) {
            None => r is Endless,
            Some(None) => r is NoTree,
            Some(Some((flat, roots))) => (r matches PageStructure::Tree(o) && entries_view(o.entries@) == flat
                && o.roots@ == roots),
        },
{
    let guids = guid_lookup(&doc.nodes);
    let parents = parent_lookup(&doc.children_map);
    let n = doc.nodes.len();
    assert(node_views(doc.nodes@).len() == n);
    proof {
        lemma_guid_table_bounds(node_views(doc.nodes@));
    }
    let w = Walk { nodes: &doc.nodes, lists: &doc.children_map, guids, parents };
    let key = node_key(page);
    let kids: &Vec<NodeId> = match w.parents.get(&key) {
        Some(j) => &w.lists[*j].children,
        None => {
            assert(children_listed(w.cm(), page) is None);
            return PageStructure::NoTree;
        },
    };
    let mut flat: Vec<RenderEntry> = Vec::new();
    let mut roots: Vec<usize> = Vec::new();
    assert(entries_view(flat@) =~= Seq::<EntryView>::empty());
    match walk_list(&w, kids, 0, &mut flat, &mut roots, doc.nodes.len()) {
        Err(()) => PageStructure::Endless,
        Ok(()) => {
            if flat.len() == 0 {
                PageStructure::NoTree
            } else {
                PageStructure::Tree(RenderOrder { entries: flat, roots })
            }
        },
    }
}

} // verus!
