//! The parent/child structure of a document: children grouped by parent and
//! ordered by their position keys, and the pages of the document.

use vstd::prelude::*;
use std::collections::HashMap;
use crate::document::{parse_u64, parse_u64_spec};
use crate::types::{ChildList, FigDocument, FigNode, FigNodeView, NodeId, NodeType, Page};
use crate::scene::{children_listed, kids_of, parent_lookup};
use std::collections::HashSet;
use crate::text::str_eq;

verus! {

broadcast use vstd::std_specs::hash::group_hash_axioms;

/// The views of a sequence of nodes.
pub open spec fn node_views(s: Seq<FigNode>) -> Seq<FigNodeView> {
    s.map_values(|n: FigNode| n@)
}

/// A node id packed into one integer: session id in the high half.
pub open spec fn id_key(id: NodeId) -> u64 {
    (id.session_id as int * 0x1_0000_0000 + id.local_id as int) as u64
}

pub proof fn lemma_id_key_injective(a: NodeId, b: NodeId)
    ensures
        id_key(a) == id_key(b) ==> a == b,
{
    assert(0 <= a.session_id as int * 0x1_0000_0000 + a.local_id as int <= u64::MAX);
    assert(0 <= b.session_id as int * 0x1_0000_0000 + b.local_id as int <= u64::MAX);
}

pub(crate) fn node_key(id: NodeId) -> (k: u64)
    ensures
        k == id_key(id),
{
    (id.session_id as u64) * 0x1_0000_0000u64 + (id.local_id as u64)
}

/// A node takes part in ordering when it has both an id and a position.
pub open spec fn positioned(n: FigNodeView) -> bool {
    n.guid is Some && n.position is Some
}

/// How many nodes of `ns` are positioned.
pub open spec fn positioned_count(ns: Seq<FigNodeView>) -> nat
    decreases ns.len(),
{
    if ns.len() == 0 {
        0
    } else {
        positioned_count(ns.drop_last()) + if positioned(ns.last()) { 1nat } else { 0nat }
    }
}

/// A position string read as a number; non-numeric positions sort last.
pub open spec fn position_key(pos: Seq<char>) -> u64 {
    match parse_u64_spec(pos) {
        Some(v) => v,
        None => u64::MAX,
    }
}

/// For each id, the position key of the last positioned node with that id,
/// and how many positioned nodes came before that node.
pub open spec fn position_table(ns: Seq<FigNodeView>) -> Map<u64, (u64, usize)>
    decreases ns.len(),
{
    if ns.len() == 0 {
        Map::empty()
    } else {
        let prev = position_table(ns.drop_last());
        let n = ns.last();
        if positioned(n) {
            prev.insert(
                id_key(n.guid->0),
                (position_key(n.position->0), positioned_count(ns.drop_last()) as usize),
            )
        } else {
            prev
        }
    }
}

/// The sort key of an id: its entry in the position table, or last of all.
pub open spec fn order_key(table: Map<u64, (u64, usize)>, id: NodeId) -> (u64, usize) {
    if table.contains_key(id_key(id)) {
        table[id_key(id)]
    } else {
        (u64::MAX, usize::MAX)
    }
}

/// Lexicographic order on sort keys.
pub open spec fn key_le(a: (u64, usize), b: (u64, usize)) -> bool {
    a.0 < b.0 || (a.0 == b.0 && a.1 <= b.1)
}

pub open spec fn sorted_by_position(table: Map<u64, (u64, usize)>, ids: Seq<NodeId>) -> bool {
    forall|i: int, j: int|
        0 <= i < j < ids.len() ==> key_le(
            #[trigger] order_key(table, ids[i]),
            #[trigger] order_key(table, ids[j]),
        )
}

/// Appends child `c` to the group of parent `p`, opening a new group at the
/// end when `p` has none yet.
pub open spec fn add_child(groups: Seq<(NodeId, Seq<NodeId>)>, p: NodeId, c: NodeId) -> Seq<
    (NodeId, Seq<NodeId>),
> {
    if exists|k: int| 0 <= k < groups.len() && (#[trigger] groups[k]).0 == p {
        let k = choose|k: int| 0 <= k < groups.len() && (#[trigger] groups[k]).0 == p;
        groups.update(k, (p, groups[k].1.push(c)))
    } else {
        groups.push((p, seq![c]))
    }
}

/// The children of each parent in node order, parents in order of first
/// appearance. Only nodes with an id are listed.
pub open spec fn child_groups(ns: Seq<FigNodeView>) -> Seq<(NodeId, Seq<NodeId>)>
    decreases ns.len(),
{
    if ns.len() == 0 {
        Seq::empty()
    } else {
        let g = child_groups(ns.drop_last());
        let n = ns.last();
        match (n.parent_id, n.guid) {
            (Some(p), Some(c)) => add_child(g, p, c),
            _ => g,
        }
    }
}

pub open spec fn distinct_parents(g: Seq<(NodeId, Seq<NodeId>)>) -> bool {
    forall|a: int, b: int| 0 <= a < b < g.len() ==> (#[trigger] g[a]).0 != (#[trigger] g[b]).0
}


proof fn lemma_views_take_step(s: Seq<FigNode>, i: int)
    requires
        0 <= i < s.len(),
    ensures
        node_views(s.take(i + 1)).drop_last() == node_views(s.take(i)),
        node_views(s.take(i + 1)).last() == s[i]@,
        node_views(s.take(i + 1)).len() == i + 1,
{
    assert(node_views(s.take(i + 1)).drop_last() =~= node_views(s.take(i)));
}

proof fn lemma_positioned_count_le(ns: Seq<FigNodeView>)
    ensures
        positioned_count(ns) <= ns.len(),
    decreases ns.len(),
{
    if ns.len() > 0 {
        lemma_positioned_count_le(ns.drop_last());
    }
}

/// The position table of the nodes, as a hash map keyed by packed id.
fn position_lookup(nodes: &Vec<FigNode>) -> (m: HashMap<u64, (u64, usize)>)
    ensures
        m@ == position_table(node_views(nodes@)),
{
    let mut m: HashMap<u64, (u64, usize)> = HashMap::new();
    let mut count: usize = 0;
    let mut i: usize = 0;
    while i < nodes.len()
        invariant
            i <= nodes.len(),
            m@ == position_table(node_views(nodes@.take(i as int))),
            count == positioned_count(node_views(nodes@.take(i as int))),
            count <= i,
        decreases nodes.len() - i,
    {
        proof {
            lemma_views_take_step(nodes@, i as int);
        }
        let n = &nodes[i];
        match n.guid {
            Some(g) => match &n.position {
                Some(p) => {
                    let key = match parse_u64(p.as_str()) {
                        Some(v) => v,
                        None => u64::MAX,
                    };
                    m.insert(node_key(g), (key, count));
                    count = count + 1;
                },
                None => {},
            },
            None => {},
        }
        i = i + 1;
    }
    assert(nodes@.take(nodes@.len() as int) =~= nodes@);
    m
}


/// Parent/children pairs read off two parallel vectors.
pub open spec fn zip_groups(parents: Seq<NodeId>, kids: Seq<Vec<NodeId>>) -> Seq<(NodeId, Seq<NodeId>)> {
    Seq::new(parents.len(), |k: int| (parents[k], kids[k]@))
}

/// The hash index of a grouping: packed parent id to the parent's slot.
pub open spec fn index_matches(index: Map<u64, usize>, parents: Seq<NodeId>) -> bool {
    &&& forall|k: int|
        0 <= k < parents.len() ==> #[trigger] index.contains_key(id_key(parents[k]))
            && index[id_key(parents[k])] == k
    &&& forall|key: u64|
        #[trigger] index.contains_key(key) ==> index[key] < parents.len() && id_key(
            parents[index[key] as int],
        ) == key
}

/// Adds child `c` under parent `p` in a grouping held as parallel vectors.
fn add_to_groups(
    parents: &mut Vec<NodeId>,
    kids: &mut Vec<Vec<NodeId>>,
    index: &mut HashMap<u64, usize>,
    p: NodeId,
    c: NodeId,
)
    requires
        old(parents).len() == old(kids).len(),
        distinct_parents(zip_groups(old(parents)@, old(kids)@)),
        index_matches(old(index)@, old(parents)@),
    ensures
        final(parents).len() == final(kids).len(),
        zip_groups(final(parents)@, final(kids)@) == add_child(
            zip_groups(old(parents)@, old(kids)@),
            p,
            c,
        ),
        distinct_parents(zip_groups(final(parents)@, final(kids)@)),
        index_matches(final(index)@, final(parents)@),
{
    let ghost g = zip_groups(parents@, kids@);
    let key = node_key(p);
    let found: Option<usize> = match index.get(&key) {
        Some(j_ref) => Some(*j_ref),
        None => None,
    };
    match found {
        Some(j) => {
            proof {
                lemma_id_key_injective(parents@[j as int], p);
                assert(g[j as int].0 == p);
                let k = choose|k: int| 0 <= k < g.len() && (#[trigger] g[k]).0 == p;
                assert(k == j) by {
                    if k != j {
                        if k < j {
                            assert(g[k].0 != g[j as int].0);
                        } else {
                            assert(g[j as int].0 != g[k].0);
                        }
                    }
                }
            }
            kids[j].push(c);
            proof {
                let ng = add_child(g, p, c);
                assert(zip_groups(parents@, kids@) =~= ng);
                assert forall|a: int, b: int| 0 <= a < b < ng.len() implies (#[trigger] ng[a]).0
                    != (#[trigger] ng[b]).0 by {
                    assert(ng[a].0 == g[a].0);
                    assert(ng[b].0 == g[b].0);
                }
            }
        },
        None => {
            proof {
                assert forall|k: int| 0 <= k < g.len() implies (#[trigger] g[k]).0 != p by {
                    if g[k].0 == p {
                        assert(index@.contains_key(id_key(parents@[k])));
                    }
                }
            }
            let ghost old_index = index@;
            let ghost old_parents = parents@;
            parents.push(p);
            kids.push(vec![c]);
            index.insert(key, parents.len() - 1);
            proof {
                let ng = add_child(g, p, c);
                assert(ng == g.push((p, seq![c])));
                assert(kids@.last()@ =~= seq![c]);
                assert(zip_groups(parents@, kids@) =~= ng);
                assert forall|k: int| 0 <= k < parents.len() implies #[trigger] index@.contains_key(
                    id_key(parents@[k]),
                ) && index@[id_key(parents@[k])] == k by {
                    if k < old_parents.len() {
                        assert(parents@[k] == old_parents[k]);
                        assert(old_index.contains_key(id_key(old_parents[k])));
                        if id_key(parents@[k]) == key {
                            lemma_id_key_injective(parents@[k], p);
                        }
                    }
                }
                assert forall|kk: u64| #[trigger] index@.contains_key(kk) implies index@[kk]
                    < parents.len() && id_key(parents@[index@[kk] as int]) == kk by {
                    if kk != key {
                        assert(old_index.contains_key(kk));
                    }
                }
            }
        },
    }
}

/// The children of each parent, unsorted, as parallel vectors.
fn group_children(nodes: &Vec<FigNode>) -> (r: (Vec<NodeId>, Vec<Vec<NodeId>>))
    ensures
        r.0.len() == r.1.len(),
        zip_groups(r.0@, r.1@) == child_groups(node_views(nodes@)),
        distinct_parents(child_groups(node_views(nodes@))),
{
    let mut parents: Vec<NodeId> = Vec::new();
    let mut kids: Vec<Vec<NodeId>> = Vec::new();
    let mut index: HashMap<u64, usize> = HashMap::new();
    let mut i: usize = 0;
    assert(zip_groups(parents@, kids@) =~= Seq::<(NodeId, Seq<NodeId>)>::empty());
    while i < nodes.len()
        invariant
            i <= nodes.len(),
            parents.len() == kids.len(),
            zip_groups(parents@, kids@) == child_groups(node_views(nodes@.take(i as int))),
            distinct_parents(zip_groups(parents@, kids@)),
            index_matches(index@, parents@),
        decreases nodes.len() - i,
    {
        proof {
            lemma_views_take_step(nodes@, i as int);
        }
        if let Some(p) = nodes[i].parent_id {
            if let Some(c) = nodes[i].guid {
                add_to_groups(&mut parents, &mut kids, &mut index, p, c);
            }
        }
        i = i + 1;
    }
    assert(nodes@.take(nodes@.len() as int) =~= nodes@);
    (parents, kids)
}

/// The sort key of `id` read from the hash map of the position table.
fn lookup_order_key(table: &HashMap<u64, (u64, usize)>, id: NodeId) -> (r: (u64, usize))
    ensures
        r == order_key(table@, id),
{
    match table.get(&node_key(id)) {
        Some(k) => *k,
        None => (u64::MAX, usize::MAX),
    }
}

/// `ids` reordered by position key, a stable insertion sort.
fn sort_by_position(ids: &Vec<NodeId>, table: &HashMap<u64, (u64, usize)>) -> (r: Vec<NodeId>)
    ensures
        r@.to_multiset() == ids@.to_multiset(),
        sorted_by_position(table@, r@),
{
    broadcast use vstd::seq_lib::to_multiset_insert;

    let mut out: Vec<NodeId> = Vec::new();
    let mut keys: Vec<(u64, usize)> = Vec::new();
    let mut i: usize = 0;
    assert(ids@.take(0) =~= Seq::<NodeId>::empty());
    while i < ids.len()
        invariant
            i <= ids.len(),
            keys.len() == out.len(),
            forall|q: int| 0 <= q < out.len() ==> #[trigger] keys@[q] == order_key(table@, out@[q]),
            sorted_by_position(table@, out@),
            out@.to_multiset() == ids@.take(i as int).to_multiset(),
        decreases ids.len() - i,
    {
        let x = ids[i];
        let kx = lookup_order_key(table, x);
        let mut p: usize = 0;
        while p < out.len() && !(kx.0 < keys[p].0 || (kx.0 == keys[p].0 && kx.1 < keys[p].1))
            invariant
                p <= out.len(),
                keys.len() == out.len(),
                forall|q: int| 0 <= q < p ==> key_le(#[trigger] keys@[q], kx),
            decreases out.len() - p,
        {
            p = p + 1;
        }
        let ghost before = out@;
        let ghost before_keys = keys@;
        out.insert(p, x);
        keys.insert(p, kx);
        proof {
            assert(ids@.take(i + 1) =~= ids@.take(i as int).push(x));
            vstd::seq_lib::to_multiset_build(ids@.take(i as int), x);
            assert(out@ == before.insert(p as int, x));
            vstd::seq_lib::to_multiset_insert(before, p as int, x);
            assert forall|q: int| 0 <= q < out.len() implies #[trigger] keys@[q] == order_key(
                table@,
                out@[q],
            ) by {
                if q < p {
                    assert(keys@[q] == before_keys[q]);
                } else if q > p {
                    assert(keys@[q] == before_keys[q - 1]);
                }
            }
            assert forall|a: int, b: int| 0 <= a < b < out@.len() implies key_le(
                #[trigger] order_key(table@, out@[a]),
                #[trigger] order_key(table@, out@[b]),
            ) by {
                assert(keys@[a] == order_key(table@, out@[a]));
                assert(keys@[b] == order_key(table@, out@[b]));
                if b < p {
                    assert(key_le(order_key(table@, before[a]), order_key(table@, before[b])));
                } else if a < p && b == p {
                    assert(key_le(before_keys[a], kx));
                } else if a < p && b > p {
                    assert(key_le(before_keys[a], kx));
                    assert(key_le(kx, before_keys[p as int]));
                    assert(key_le(order_key(table@, before[p as int]), order_key(table@, before[b - 1])))
                        by {
                        if (p as int) < b - 1 {
                        }
                    };
                } else if a == p {
                    assert(key_le(kx, before_keys[p as int]));
                    assert(key_le(order_key(table@, before[p as int]), order_key(table@, before[b - 1])))
                        by {
                        if (p as int) < b - 1 {
                        }
                    };
                } else {
                    assert(key_le(order_key(table@, before[a - 1]), order_key(table@, before[b - 1])));
                }
            }
        }
        i = i + 1;
    }
    assert(ids@.take(ids@.len() as int) =~= ids@);
    out
}

/// The children map of a set of nodes: one list per parent, parents in order
/// of first appearance, each list holding the ids of that parent's nodes
/// (as a multiset) in position order.
pub open spec fn children_map_matches(cm: Seq<(NodeId, Seq<NodeId>)>, ns: Seq<FigNodeView>) -> bool {
    let g = child_groups(ns);
    let t = position_table(ns);
    &&& cm.len() == g.len()
    &&& forall|k: int|
        0 <= k < cm.len() ==> (#[trigger] cm[k]).0 == g[k].0 && cm[k].1.to_multiset()
            == g[k].1.to_multiset() && sorted_by_position(t, cm[k].1)
}

pub open spec fn child_lists_view(s: Seq<ChildList>) -> Seq<(NodeId, Seq<NodeId>)> {
    s.map_values(|c: ChildList| c@)
}

/// Group the nodes' ids under their parents and order each group by position.
pub fn build_children_map(nodes: &Vec<FigNode>) -> (r: Vec<ChildList>)
    ensures
        children_map_matches(child_lists_view(r@), node_views(nodes@)),
{
    let (parents, kids) = group_children(nodes);
    let table = position_lookup(nodes);
    let ghost g = child_groups(node_views(nodes@));
    let mut out: Vec<ChildList> = Vec::new();
    let mut k: usize = 0;
    while k < parents.len()
        invariant
            k <= parents.len(),
            parents.len() == kids.len(),
            zip_groups(parents@, kids@) == g,
            table@ == position_table(node_views(nodes@)),
            out.len() == k,
            forall|q: int|
                0 <= q < k ==> (#[trigger] out@[q]).parent == g[q].0
                    && out@[q].children@.to_multiset() == g[q].1.to_multiset()
                    && sorted_by_position(table@, out@[q].children@),
        decreases parents.len() - k,
    {
        assert(g[k as int] == (parents@[k as int], kids@[k as int]@));
        let sorted = sort_by_position(&kids[k], &table);
        out.push(ChildList { parent: parents[k], children: sorted });
        k = k + 1;
    }
    proof {
        let cm = child_lists_view(out@);
        assert forall|q: int| 0 <= q < cm.len() implies (#[trigger] cm[q]).0 == g[q].0
            && cm[q].1.to_multiset() == g[q].1.to_multiset()
            && sorted_by_position(position_table(node_views(nodes@)), cm[q].1) by {
            assert(cm[q] == out@[q]@);
        }
    }
    out
}

/// A page is a canvas directly under the document root (`0:0`), other than
/// the internal-only canvas.
pub open spec fn is_page(n: FigNodeView) -> bool {
    &&& n.parent_id == Some(NodeId { session_id: 0, local_id: 0 })
    &&& n.node_type == NodeType::Canvas
    &&& n.name != "Internal Only Canvas"@
}

/// A page's id (`0:0` when the node has none) and name.
pub open spec fn page_of(n: FigNodeView) -> (NodeId, Seq<char>) {
    (
        match n.guid {
            Some(g) => g,
            None => NodeId { session_id: 0, local_id: 0 },
        },
        n.name,
    )
}

/// The pages of the document, in node order.
pub open spec fn pages_of(ns: Seq<FigNodeView>) -> Seq<(NodeId, Seq<char>)>
    decreases ns.len(),
{
    if ns.len() == 0 {
        Seq::empty()
    } else if is_page(ns.last()) {
        pages_of(ns.drop_last()).push(page_of(ns.last()))
    } else {
        pages_of(ns.drop_last())
    }
}

pub open spec fn pages_view(s: Seq<Page>) -> Seq<(NodeId, Seq<char>)> {
    s.map_values(|p: Page| p@)
}

/// The pages among the nodes.
pub fn collect_pages(nodes: &Vec<FigNode>) -> (r: Vec<Page>)
    ensures
        pages_view(r@) == pages_of(node_views(nodes@)),
{
    let mut out: Vec<Page> = Vec::new();
    let mut i: usize = 0;
    while i < nodes.len()
        invariant
            i <= nodes.len(),
            pages_view(out@) == pages_of(node_views(nodes@.take(i as int))),
        decreases nodes.len() - i,
    {
        proof {
            lemma_views_take_step(nodes@, i as int);
        }
        let n = &nodes[i];
        let root = NodeId::new(0, 0);
        let under_root = match n.parent_id {
            Some(p) => p == root,
            None => false,
        };
        if under_root && n.node_type == NodeType::Canvas && !str_eq(n.name.as_str(), "Internal Only Canvas") {
            let id = match n.guid {
                Some(g) => g,
                None => root,
            };
            let ghost before = out@;
            out.push(Page { id, name: n.name.clone() });
            assert(pages_view(out@) =~= pages_view(before).push(page_of(n@)));
        }
        i = i + 1;
    }
    assert(nodes@.take(nodes@.len() as int) =~= nodes@);
    out
}

/// Child `c` is listed under parent `p`.
pub open spec fn listed(g: Seq<(NodeId, Seq<NodeId>)>, p: NodeId, c: NodeId) -> bool {
    exists|k: int| 0 <= k < g.len() && (#[trigger] g[k]).0 == p && g[k].1.contains(c)
}

/// Some node has id `c` and parent `p`.
pub open spec fn has_child_node(ns: Seq<FigNodeView>, p: NodeId, c: NodeId) -> bool {
    exists|i: int| 0 <= i < ns.len() && (#[trigger] ns[i]).parent_id == Some(p) && ns[i].guid == Some(c)
}

proof fn lemma_add_child_facts(g: Seq<(NodeId, Seq<NodeId>)>, p0: NodeId, c0: NodeId)
    requires
        distinct_parents(g),
    ensures
        distinct_parents(add_child(g, p0, c0)),
        forall|p: NodeId, c: NodeId|
            #[trigger] listed(add_child(g, p0, c0), p, c) <==> (listed(g, p, c) || (p == p0 && c == c0)),
{
    let ng = add_child(g, p0, c0);
    if exists|k: int| 0 <= k < g.len() && (#[trigger] g[k]).0 == p0 {
        let j = choose|k: int| 0 <= k < g.len() && (#[trigger] g[k]).0 == p0;
        assert forall|a: int, b: int| 0 <= a < b < ng.len() implies (#[trigger] ng[a]).0 != (
        #[trigger] ng[b]).0 by {
            assert(ng[a].0 == g[a].0);
            assert(ng[b].0 == g[b].0);
        }
        assert forall|p: NodeId, c: NodeId| #[trigger]
            listed(ng, p, c) <==> (listed(g, p, c) || (p == p0 && c == c0)) by {
            if listed(ng, p, c) {
                let k = choose|k: int| 0 <= k < ng.len() && (#[trigger] ng[k]).0 == p && ng[k].1.contains(c);
                if k != j {
                    assert(g[k] == ng[k]);
                } else {
                    let q = choose|q: int| 0 <= q < ng[k].1.len() && ng[k].1[q] == c;
                    if q < g[k].1.len() {
                        assert(g[k].1[q] == c);
                    }
                }
            }
            if listed(g, p, c) {
                let k = choose|k: int| 0 <= k < g.len() && (#[trigger] g[k]).0 == p && g[k].1.contains(c);
                let q = choose|q: int| 0 <= q < g[k].1.len() && g[k].1[q] == c;
                assert(ng[k].1[q] == c);
                assert(ng[k].1.contains(c));
            }
            if p == p0 && c == c0 {
                assert(ng[j].1[ng[j].1.len() - 1] == c0);
                assert(ng[j].1.contains(c0));
            }
        }
    } else {
        assert forall|a: int, b: int| 0 <= a < b < ng.len() implies (#[trigger] ng[a]).0 != (
        #[trigger] ng[b]).0 by {
            if b == g.len() {
                assert(g[a].0 != p0);
            } else {
                assert(ng[a] == g[a]);
                assert(ng[b] == g[b]);
            }
        }
        assert forall|p: NodeId, c: NodeId| #[trigger]
            listed(ng, p, c) <==> (listed(g, p, c) || (p == p0 && c == c0)) by {
            if listed(ng, p, c) {
                let k = choose|k: int| 0 <= k < ng.len() && (#[trigger] ng[k]).0 == p && ng[k].1.contains(c);
                if k < g.len() {
                    assert(g[k] == ng[k]);
                } else {
                    let q = choose|q: int| 0 <= q < ng[k].1.len() && ng[k].1[q] == c;
                    assert(ng[k].1 == seq![c0]);
                }
            }
            if listed(g, p, c) {
                let k = choose|k: int| 0 <= k < g.len() && (#[trigger] g[k]).0 == p && g[k].1.contains(c);
                assert(ng[k] == g[k]);
            }
            if p == p0 && c == c0 {
                assert(ng[g.len() as int].1[0] == c0);
                assert(ng[g.len() as int].1.contains(c0));
            }
        }
    }
}

/// No parent has two child lists; a child is listed under a parent exactly
/// when some node with that id names that parent.
pub proof fn lemma_child_groups(ns: Seq<FigNodeView>)
    ensures
        distinct_parents(child_groups(ns)),
        forall|p: NodeId, c: NodeId|
            #[trigger] listed(child_groups(ns), p, c) <==> has_child_node(ns, p, c),
    decreases ns.len(),
{
    if ns.len() > 0 {
        let prev = ns.drop_last();
        lemma_child_groups(prev);
        let g = child_groups(prev);
        let n = ns.last();
        match (n.parent_id, n.guid) {
            (Some(p0), Some(c0)) => {
                lemma_add_child_facts(g, p0, c0);
            },
            _ => {},
        }
        assert forall|p: NodeId, c: NodeId| #[trigger]
            listed(child_groups(ns), p, c) <==> has_child_node(ns, p, c) by {
            assert(listed(child_groups(ns), p, c) <==> (listed(g, p, c) || (n.parent_id == Some(p)
                && n.guid == Some(c))));
            if has_child_node(prev, p, c) {
                let i = choose|i: int| 0 <= i < prev.len() && (#[trigger] prev[i]).parent_id == Some(p)
                    && prev[i].guid == Some(c);
                assert(ns[i] == prev[i]);
            }
            if has_child_node(ns, p, c) {
                let i = choose|i: int| 0 <= i < ns.len() && (#[trigger] ns[i]).parent_id == Some(p)
                    && ns[i].guid == Some(c);
                if i < prev.len() {
                    assert(ns[i] == prev[i]);
                }
            }
            if n.parent_id == Some(p) && n.guid == Some(c) {
                assert(ns[ns.len() - 1] == n);
            }
        }
    }
}

/// Law of the children map: no parent has two lists; `c` is listed under
/// `p` exactly when some node with id `c` has parent `p`; each list is in
/// position order.
pub proof fn law_children_map(cm: Seq<(NodeId, Seq<NodeId>)>, ns: Seq<FigNodeView>)
    requires
        children_map_matches(cm, ns),
    ensures
        distinct_parents(cm),
        forall|p: NodeId, c: NodeId| #[trigger] listed(cm, p, c) <==> has_child_node(ns, p, c),
        forall|k: int| 0 <= k < cm.len() ==> sorted_by_position(position_table(ns), (#[trigger] cm[k]).1),
{
    broadcast use vstd::seq_lib::to_multiset_contains;

    let g = child_groups(ns);
    lemma_child_groups(ns);
    assert forall|a: int, b: int| 0 <= a < b < cm.len() implies (#[trigger] cm[a]).0 != (
    #[trigger] cm[b]).0 by {
        assert(g[a].0 != g[b].0);
    }
    assert forall|p: NodeId, c: NodeId| #[trigger] listed(cm, p, c) <==> has_child_node(ns, p, c) by {
        assert(listed(g, p, c) <==> has_child_node(ns, p, c));
        if listed(cm, p, c) {
            let k = choose|k: int| 0 <= k < cm.len() && (#[trigger] cm[k]).0 == p && cm[k].1.contains(c);
            assert(cm[k].1.to_multiset().count(c) > 0);
            assert(g[k].1.to_multiset().count(c) > 0);
            assert(g[k].1.contains(c));
            assert(listed(g, p, c));
        }
        if listed(g, p, c) {
            let k = choose|k: int| 0 <= k < g.len() && (#[trigger] g[k]).0 == p && g[k].1.contains(c);
            assert(g[k].1.to_multiset().count(c) > 0);
            assert(cm[k].1.to_multiset().count(c) > 0);
            assert(cm[k].1.contains(c));
            assert(cm[k].0 == p);
        }
    }
}

/// The node that page `k` comes from.
proof fn lemma_page_source(ns: Seq<FigNodeView>, k: int) -> (i: int)
    requires
        0 <= k < pages_of(ns).len(),
    ensures
        0 <= i < ns.len(),
        is_page(ns[i]),
        pages_of(ns)[k] == page_of(ns[i]),
    decreases ns.len(),
{
    let prev = ns.drop_last();
    if is_page(ns.last()) && k == pages_of(prev).len() {
        ns.len() - 1
    } else {
        let i = lemma_page_source(prev, k);
        assert(ns[i] == prev[i]);
        i
    }
}

/// Every page is listed among the children of the document root (`0:0`),
/// except a page whose node has no id (its id then reads `0:0`).
pub proof fn law_pages_are_root_children(cm: Seq<(NodeId, Seq<NodeId>)>, ns: Seq<FigNodeView>)
    requires
        children_map_matches(cm, ns),
    ensures
        forall|k: int|
            0 <= k < pages_of(ns).len() ==> (#[trigger] pages_of(ns)[k]).0 == (NodeId { session_id: 0, local_id: 0 })
                || listed(cm, NodeId { session_id: 0, local_id: 0 }, pages_of(ns)[k].0),
{
    law_children_map(cm, ns);
    let root = NodeId { session_id: 0, local_id: 0 };
    assert forall|k: int| 0 <= k < pages_of(ns).len() implies (#[trigger] pages_of(ns)[k]).0 == root
        || listed(cm, root, pages_of(ns)[k].0) by {
        let i = lemma_page_source(ns, k);
        if let Some(g) = ns[i].guid {
            assert(has_child_node(ns, root, g));
        }
    }
}

/// Children with numeric positions come before those whose position is not
/// a number (which sort last).
pub proof fn law_numeric_positions_first(cm: Seq<(NodeId, Seq<NodeId>)>, ns: Seq<FigNodeView>, k: int, i: int, j: int)
    requires
        children_map_matches(cm, ns),
        0 <= k < cm.len(),
        0 <= i < cm[k].1.len(),
        0 <= j < cm[k].1.len(),
        order_key(position_table(ns), cm[k].1[j]).0 < u64::MAX,
        order_key(position_table(ns), cm[k].1[i]).0 == u64::MAX,
    ensures
        j < i,
{
    let t = position_table(ns);
    if i < j {
        assert(key_le(order_key(t, cm[k].1[i]), order_key(t, cm[k].1[j])));
    }
}

proof fn lemma_table_counts(ns: Seq<FigNodeView>)
    requires
        ns.len() <= usize::MAX,
    ensures
        forall|k: u64|
            #[trigger] position_table(ns).contains_key(k) ==> (position_table(ns)[k].1 as int)
                < positioned_count(ns),
        forall|k1: u64, k2: u64|
            #[trigger] position_table(ns).contains_key(k1) && #[trigger] position_table(ns).contains_key(k2)
                && k1 != k2 ==> position_table(ns)[k1].1 != position_table(ns)[k2].1,
    decreases ns.len(),
{
    if ns.len() > 0 {
        let prev = ns.drop_last();
        lemma_table_counts(prev);
        lemma_positioned_count_le(prev);
        let t = position_table(ns);
        let tp = position_table(prev);
        let n = ns.last();
        let cnt = positioned_count(prev);
        if positioned(n) {
            let nk = id_key(n.guid->0);
            assert(t == tp.insert(nk, (position_key(n.position->0), cnt as usize)));
            assert((cnt as usize) as int == cnt);
            assert forall|k: u64| #[trigger] t.contains_key(k) implies (t[k].1 as int) < positioned_count(
                ns,
            ) by {
                if k != nk {
                    assert(tp.contains_key(k));
                }
            }
            assert forall|k1: u64, k2: u64| #[trigger] t.contains_key(k1) && #[trigger] t.contains_key(k2)
                && k1 != k2 implies t[k1].1 != t[k2].1 by {
                if k1 != nk {
                    assert(tp.contains_key(k1));
                }
                if k2 != nk {
                    assert(tp.contains_key(k2));
                }
            }
        } else {
            assert(t == tp);
        }
    }
}

/// Different positioned ids get different sort keys: the order of each child
/// list is fully determined by the position table.
pub proof fn lemma_order_keys_distinct(ns: Seq<FigNodeView>, a: NodeId, b: NodeId)
    requires
        ns.len() <= usize::MAX,
        position_table(ns).contains_key(id_key(a)),
        position_table(ns).contains_key(id_key(b)),
        a != b,
    ensures
        order_key(position_table(ns), a) != order_key(position_table(ns), b),
{
    lemma_table_counts(ns);
    lemma_id_key_injective(a, b);
}

// ---------------------------------------------------------------------------
// Graph checks: self-references, children claimed by several parents, what
// each page reaches, and subtrees that nothing reaches.
// ---------------------------------------------------------------------------

/// Every child listed in a children map, list after list.
pub open spec fn all_children(cm: Seq<(NodeId, Seq<NodeId>)>) -> Seq<NodeId>
    decreases cm.len(),
{
    if cm.len() == 0 {
        Seq::empty()
    } else {
        all_children(cm.drop_last()) + cm.last().1
    }
}

/// `p` once for every entry of `s` that is `p` itself.
pub open spec fn cycles_in(s: Seq<NodeId>, p: NodeId) -> Seq<NodeId>
    decreases s.len(),
{
    if s.len() == 0 {
        Seq::empty()
    } else {
        cycles_in(s.drop_last(), p) + if s.last() == p { seq![p] } else { Seq::empty() }
    }
}

/// The listed children that are their own parent, list after list.
pub open spec fn self_cycle_nodes(cm: Seq<(NodeId, Seq<NodeId>)>) -> Seq<NodeId>
    decreases cm.len(),
{
    if cm.len() == 0 {
        Seq::empty()
    } else {
        self_cycle_nodes(cm.drop_last()) + cycles_in(cm.last().1, cm.last().0)
    }
}

/// How many listed children are their own parent.
pub open spec fn self_cycle_count(cm: Seq<(NodeId, Seq<NodeId>)>) -> nat {
    self_cycle_nodes(cm).len()
}

/// How many entries of `s` repeat an earlier entry.
pub open spec fn repeats(s: Seq<NodeId>) -> nat
    decreases s.len(),
{
    if s.len() == 0 {
        0
    } else {
        repeats(s.drop_last()) + if s.drop_last().contains(s.last()) { 1nat } else { 0nat }
    }
}

/// How many listed children were already listed before, under any parent.
pub open spec fn repeated_child_count(cm: Seq<(NodeId, Seq<NodeId>)>) -> nat {
    repeats(all_children(cm))
}

/// `id` is one of the pages.
pub open spec fn is_page_id(pages: Seq<(NodeId, Seq<char>)>, id: NodeId) -> bool {
    exists|k: int| 0 <= k < pages.len() && (#[trigger] pages[k]).0 == id
}

/// How many nodes (counted per node) have an id that has a child list but is
/// neither a page nor listed as anyone's child.
pub open spec fn orphan_count(
    ns: Seq<FigNodeView>,
    cm: Seq<(NodeId, Seq<NodeId>)>,
    pages: Seq<(NodeId, Seq<char>)>,
) -> nat
    decreases ns.len(),
{
    if ns.len() == 0 {
        0
    } else {
        orphan_count(ns.drop_last(), cm, pages) + match ns.last().guid {
            Some(g) => if children_listed(cm, g) is Some && !is_page_id(pages, g) && !all_children(cm).contains(g) {
                1nat
            } else {
                0nat
            },
            None => 0nat,
        }
    }
}

proof fn lemma_repeats_le(s: Seq<NodeId>)
    ensures
        repeats(s) <= s.len(),
    decreases s.len(),
{
    if s.len() > 0 {
        lemma_repeats_le(s.drop_last());
    }
}

proof fn lemma_all_children_take(cm: Seq<(NodeId, Seq<NodeId>)>, i: int)
    requires
        0 <= i < cm.len(),
    ensures
        all_children(cm.take(i + 1)) == all_children(cm.take(i)) + cm[i].1,
        all_children(cm.take(i + 1)).len() <= all_children(cm).len(),
    decreases cm.len() - i,
{
    assert(cm.take(i + 1).drop_last() =~= cm.take(i));
    if i + 1 < cm.len() {
        lemma_all_children_take(cm, i + 1);
    } else {
        assert(cm.take(i + 1) =~= cm);
    }
}

proof fn lemma_self_cycle_take(cm: Seq<(NodeId, Seq<NodeId>)>, i: int)
    requires
        0 <= i < cm.len(),
    ensures
        self_cycle_nodes(cm.take(i + 1)) == self_cycle_nodes(cm.take(i)) + cycles_in(cm[i].1, cm[i].0),
{
    assert(cm.take(i + 1).drop_last() =~= cm.take(i));
}

/// What the self-reference and repeated-child checks find, and the set of
/// keys of every listed child.
fn child_checks(lists: &Vec<ChildList>) -> (r: (Vec<NodeId>, usize, HashSet<u64>))
    requires
        all_children(child_lists_view(lists@)).len() <= usize::MAX,
    ensures
        r.0@ == self_cycle_nodes(child_lists_view(lists@)),
        r.1 == repeated_child_count(child_lists_view(lists@)),
        forall|id: NodeId| #[trigger] r.2@.contains(id_key(id)) == all_children(child_lists_view(lists@)).contains(id),
{
    let ghost cm = child_lists_view(lists@);
    let mut seen: HashSet<u64> = HashSet::new();
    let mut cycles: Vec<NodeId> = Vec::new();
    let mut multi: usize = 0;
    let mut i: usize = 0;
    while i < lists.len()
        invariant
            cm == child_lists_view(lists@),
            all_children(cm).len() <= usize::MAX,
            i <= lists.len(),
            cycles@ == self_cycle_nodes(cm.take(i as int)),
            multi == repeats(all_children(cm.take(i as int))),
            forall|id: NodeId| #[trigger] seen@.contains(id_key(id)) == all_children(cm.take(i as int)).contains(id),
        decreases lists.len() - i,
    {
        let parent = lists[i].parent;
        let kids = &lists[i].children;
        let ghost base = all_children(cm.take(i as int));
        assert(cm[i as int] == lists@[i as int]@);
        proof {
            lemma_all_children_take(cm, i as int);
            lemma_self_cycle_take(cm, i as int);
        }
        let mut j: usize = 0;
        while j < kids.len()
            invariant
                cm == child_lists_view(lists@),
                i < lists.len(),
                cm[i as int] == (parent, kids@),
                base == all_children(cm.take(i as int)),
                (base + kids@).len() <= usize::MAX,
                j <= kids.len(),
                cycles@ == self_cycle_nodes(cm.take(i as int)) + cycles_in(kids@.take(j as int), parent),
                multi == repeats(base + kids@.take(j as int)),
                forall|id: NodeId| #[trigger] seen@.contains(id_key(id)) == (base + kids@.take(j as int)).contains(id),
            decreases kids.len() - j,
        {
            let c = kids[j];
            let ghost done = base + kids@.take(j as int);
            let ghost next = base + kids@.take(j + 1);
            assert(next.drop_last() =~= done);
            assert(next.last() == c);
            assert(kids@.take(j + 1).drop_last() =~= kids@.take(j as int));
            proof {
                lemma_repeats_le(done);
            }
            if c == parent {
                cycles.push(c);
            }
            let fresh = seen.insert(node_key(c));
            if !fresh {
                multi = multi + 1;
            }
            proof {
                assert forall|id: NodeId| #[trigger] seen@.contains(id_key(id)) == next.contains(id) by {
                    lemma_id_key_injective(id, c);
                    if id == c {
                        assert(next[next.len() - 1] == c);
                    } else if next.contains(id) {
                        let q = choose|q: int| 0 <= q < next.len() && next[q] == id;
                        assert(done[q] == id);
                    } else {
                        if done.contains(id) {
                            let q = choose|q: int| 0 <= q < done.len() && done[q] == id;
                            assert(next[q] == id);
                        }
                    }
                }
            }
            j = j + 1;
        }
        assert(kids@.take(kids@.len() as int) =~= kids@);
        i = i + 1;
    }
    assert(cm.take(cm.len() as int) =~= cm);
    (cycles, multi, seen)
}

/// The keys of every id a children map mentions, as parent or as child.
pub open spec fn map_keys(cm: Seq<(NodeId, Seq<NodeId>)>) -> Seq<u64>
    decreases cm.len(),
{
    if cm.len() == 0 {
        Seq::empty()
    } else {
        seq![id_key(cm[0].0)] + cm[0].1.map_values(|c: NodeId| id_key(c)) + map_keys(cm.drop_first())
    }
}

/// An id with a child list is among the ids the map mentions.
pub proof fn lemma_listed_parent_key(cm: Seq<(NodeId, Seq<NodeId>)>, id: NodeId)
    ensures
        children_listed(cm, id) is Some ==> map_keys(cm).contains(id_key(id)),
    decreases cm.len(),
{
    if cm.len() > 0 {
        let m = map_keys(cm);
        let pre = seq![id_key(cm[0].0)] + cm[0].1.map_values(|c: NodeId| id_key(c));
        assert(m == pre + map_keys(cm.drop_first()));
        if cm[0].0 == id {
            assert(m[0] == id_key(id));
        } else {
            lemma_listed_parent_key(cm.drop_first(), id);
            if children_listed(cm, id) is Some {
                let q = choose|q: int| 0 <= q < map_keys(cm.drop_first()).len() && map_keys(cm.drop_first())[q] == id_key(id);
                assert(m[pre.len() + q] == id_key(id));
            }
        }
    }
}

/// Visiting a new id either leaves fewer ids of the map unvisited, or, for
/// an id the map does not mention, adds no children.
pub proof fn lemma_search_measure(cm: Seq<(NodeId, Seq<NodeId>)>, visited: Set<u64>, id: NodeId)
    requires
        !visited.contains(id_key(id)),
    ensures
        ({
            let u = map_keys(cm).to_set();
            ||| u.difference(visited.insert(id_key(id))).len() < u.difference(visited).len()
            ||| (u.difference(visited.insert(id_key(id))) == u.difference(visited) && kids_of(cm, id).len() == 0)
        }),
{
    let u = map_keys(cm).to_set();
    let k = id_key(id);
    let d = u.difference(visited);
    vstd::seq_lib::seq_to_set_is_finite(map_keys(cm));
    vstd::set::axiom_set_difference_finite(u, visited);
    lemma_listed_parent_key(cm, id);
    if u.contains(k) {
        assert(u.difference(visited.insert(k)) =~= d.remove(k));
        assert(d.contains(k));
        vstd::set::axiom_set_remove_len(d, k);
    } else {
        assert(u.difference(visited.insert(k)) =~= d);
        assert(!map_keys(cm).contains(k));
    }
}

/// The search of the page walk: pop the last pending `(id, depth)`; an id
/// seen before is skipped; a new one is counted, raises the deepest depth,
/// and pushes its children one level deeper. Gives the count of distinct
/// ids reached and the deepest depth.
pub open spec fn reach_search(
    cm: Seq<(NodeId, Seq<NodeId>)>,
    stack: Seq<(NodeId, nat)>,
    visited: Set<u64>,
    reach: nat,
    depth: nat,
) -> (nat, nat)
    decreases map_keys(cm).to_set().difference(visited).len(), stack.len(),
{
    if stack.len() == 0 {
        (reach, depth)
    } else {
        let top = stack.last();
        let rest = stack.drop_last();
        if visited.contains(id_key(top.0)) {
            reach_search(cm, rest, visited, reach, depth)
        } else {
            proof {
                lemma_search_measure(cm, visited, top.0);
            }
            reach_search(
                cm,
                rest + kids_of(cm, top.0).map_values(|c: NodeId| (c, top.1 + 1)),
                visited.insert(id_key(top.0)),
                reach + 1,
                if top.1 > depth { top.1 } else { depth },
            )
        }
    }
}

/// What the walk finds from a page: its number of direct children, how many
/// distinct ids it reaches, and the deepest depth the search records.
pub open spec fn page_reach(cm: Seq<(NodeId, Seq<NodeId>)>, page: NodeId) -> (nat, nat, nat) {
    let kids = kids_of(cm, page);
    let found = reach_search(cm, kids.map_values(|c: NodeId| (c, 1nat)), Set::empty(), 0, 0);
    (kids.len(), found.0, found.1)
}

pub open spec fn stack_view(s: Seq<(NodeId, u128)>) -> Seq<(NodeId, nat)> {
    s.map_values(|e: (NodeId, u128)| (e.0, e.1 as nat))
}

/// Runs the page walk's search from its starting stack.
fn search_from(lists: &Vec<ChildList>, parents: &HashMap<u64, usize>, start: Vec<(NodeId, u128)>) -> (r: (usize, usize))
    requires
        forall|id: NodeId|
            #![trigger children_listed(child_lists_view(lists@), id)]
            match children_listed(child_lists_view(lists@), id) {
                Some(kids) => parents@.contains_key(id_key(id)) && parents@[id_key(id)] < lists@.len()
                    && lists@[parents@[id_key(id)] as int].children@ == kids,
                None => !parents@.contains_key(id_key(id)),
            },
        forall|q: int| 0 <= q < start@.len() ==> (#[trigger] start@[q]).1 == 1,
    ensures
        (r.0 as nat, r.1 as nat) == reach_search(child_lists_view(lists@), stack_view(start@), Set::empty(), 0, 0),
{
    let ghost cm = child_lists_view(lists@);
    let ghost goal = reach_search(cm, stack_view(start@), Set::empty(), 0, 0);
    let mut stack = start;
    let mut visited: HashSet<u64> = HashSet::new();
    let mut reach: usize = 0;
    let mut deepest: u128 = 0;
    while stack.len() > 0
        invariant
            cm == child_lists_view(lists@),
            forall|id: NodeId|
                #![trigger children_listed(cm, id)]
                match children_listed(cm, id) {
                    Some(kids) => parents@.contains_key(id_key(id)) && parents@[id_key(id)] < lists@.len()
                        && lists@[parents@[id_key(id)] as int].children@ == kids,
                    None => !parents@.contains_key(id_key(id)),
                },
            goal == reach_search(cm, stack_view(stack@), visited@, reach as nat, deepest as nat),
            visited@.finite(),
            reach as nat == visited@.len(),
            deepest <= visited@.len(),
            forall|q: int| 0 <= q < stack@.len() ==> 1 <= (#[trigger] stack@[q]).1 <= visited@.len() + 1,
        decreases map_keys(cm).to_set().difference(visited@).len(), stack@.len(),
    {
        let ghost before = stack_view(stack@);
        let ghost vis0 = visited@;
        let top = stack.pop().unwrap();
        let (cid, d) = top;
        assert(before.last() == (cid, d as nat));
        assert(stack_view(stack@) =~= before.drop_last());
        let key = node_key(cid);
        if !visited.contains(&key) {
            proof {
                lemma_search_measure(cm, vis0, cid);
            }
            visited.insert(key);
            reach = visited.len();
            if d > deepest {
                deepest = d;
            }
            let ghost base = stack_view(stack@);
            let ghost kids_spec = kids_of(cm, cid);
            match parents.get(&key) {
                Some(jr) => {
                    let kids = &lists[*jr].children;
                    assert(children_listed(cm, cid) is Some);
                    assert(kids@ == kids_spec);
                    let mut t: usize = 0;
                    while t < kids.len()
                        invariant
                            t <= kids.len(),
                            kids@ == kids_spec,
                            stack_view(stack@) == base + kids_spec.take(t as int).map_values(
                                |c: NodeId| (c, d as nat + 1),
                            ),
                            d as nat <= visited@.len(),
                            visited@.len() <= usize::MAX,
                            forall|q: int| 0 <= q < stack@.len() ==> 1 <= (#[trigger] stack@[q]).1 <= visited@.len() + 1,
                        decreases kids.len() - t,
                    {
                        let ghost sv = stack_view(stack@);
                        stack.push((kids[t], d + 1));
                        assert(stack_view(stack@) =~= sv.push((kids@[t as int], d as nat + 1)));
                        assert(kids_spec.take(t + 1).map_values(|c: NodeId| (c, d as nat + 1)) =~= kids_spec.take(
                            t as int,
                        ).map_values(|c: NodeId| (c, d as nat + 1)).push((kids@[t as int], d as nat + 1)));
                        t = t + 1;
                    }
                    assert(kids_spec.take(kids.len() as int) =~= kids_spec);
                },
                None => {
                    assert(children_listed(cm, cid) is None);
                    assert(base + kids_spec.map_values(|c: NodeId| (c, d as nat + 1)) =~= base);
                },
            }
        }
    }
    (reach, deepest as usize)
}

/// What the walk finds from one page.
#[derive(Debug, Clone)]
pub struct PageReach {
    pub page: NodeId,
    /// The page's own children.
    pub direct: usize,
    /// The distinct ids reached below the page.
    pub reachable: usize,
    /// The deepest depth the walk records (the page's children are at 1).
    pub depth: usize,
}

/// The checks of a document's parent/child graph.
#[derive(Debug, Clone)]
pub struct GraphReport {
    /// Listed children that are their own parent.
    pub self_cycles: usize,
    /// Those children, list after list.
    pub cycle_nodes: Vec<NodeId>,
    /// Listed children that were already listed, under any parent.
    pub multi_parent: usize,
    /// One walk per page, in page order.
    pub pages: Vec<PageReach>,
    /// Nodes whose id has children but is neither a page nor anyone's child.
    pub orphaned: usize,
}

fn page_keys(pages: &Vec<Page>) -> (r: HashSet<u64>)
    ensures
        forall|id: NodeId| #[trigger] r@.contains(id_key(id)) == is_page_id(pages_view(pages@), id),
{
    let mut keys: HashSet<u64> = HashSet::new();
    let mut i: usize = 0;
    while i < pages.len()
        invariant
            i <= pages.len(),
            forall|id: NodeId| #[trigger] keys@.contains(id_key(id)) == is_page_id(pages_view(pages@.take(i as int)), id),
        decreases pages.len() - i,
    {
        let pid = pages[i].id;
        keys.insert(node_key(pid));
        proof {
            let before = pages_view(pages@.take(i as int));
            let after = pages_view(pages@.take(i + 1));
            assert(after =~= before.push(pages@[i as int]@));
            assert forall|id: NodeId| #[trigger] keys@.contains(id_key(id)) == is_page_id(after, id) by {
                lemma_id_key_injective(id, pid);
                if id == pid {
                    assert(after[i as int].0 == pid);
                } else if is_page_id(after, id) {
                    let k = choose|k: int| 0 <= k < after.len() && (#[trigger] after[k]).0 == id;
                    assert(before[k].0 == id);
                } else if is_page_id(before, id) {
                    let k = choose|k: int| 0 <= k < before.len() && (#[trigger] before[k]).0 == id;
                    assert(after[k].0 == id);
                }
            }
        }
        i = i + 1;
    }
    assert(pages@.take(pages@.len() as int) =~= pages@);
    keys
}

/// The graph checks of a document: self-references, children listed under
/// more than one parent, the walk from each page, and unreached subtrees.
pub fn graph_report(doc: &FigDocument) -> (r: GraphReport)
    requires
        all_children(child_lists_view(doc.children_map@)).len() <= usize::MAX,
    ensures
        r.self_cycles == self_cycle_count(child_lists_view(doc.children_map@)),
        r.cycle_nodes@ == self_cycle_nodes(child_lists_view(doc.children_map@)),
        r.multi_parent == repeated_child_count(child_lists_view(doc.children_map@)),
        r.pages@.len() == doc.pages@.len(),
        forall|k: int|
            0 <= k < r.pages@.len() ==> {
                let p = #[trigger] r.pages@[k];
                &&& p.page == doc.pages@[k].id
                &&& (p.direct as nat, p.reachable as nat, p.depth as nat) == page_reach(
                    child_lists_view(doc.children_map@),
                    doc.pages@[k].id,
                )
            },
        r.orphaned == orphan_count(node_views(doc.nodes@), child_lists_view(doc.children_map@), pages_view(doc.pages@)),
{
    let ghost cm = child_lists_view(doc.children_map@);
    let lists = &doc.children_map;
    let (cycle_nodes, multi_parent, seen) = child_checks(lists);
    let parents = parent_lookup(lists);
    let mut reaches: Vec<PageReach> = Vec::new();
    let mut i: usize = 0;
    while i < doc.pages.len()
        invariant
            cm == child_lists_view(lists@),
            lists == &doc.children_map,
            forall|id: NodeId|
                #![trigger children_listed(cm, id)]
                match children_listed(cm, id) {
                    Some(kids) => parents@.contains_key(id_key(id)) && parents@[id_key(id)] < lists@.len()
                        && lists@[parents@[id_key(id)] as int].children@ == kids,
                    None => !parents@.contains_key(id_key(id)),
                },
            i <= doc.pages.len(),
            reaches@.len() == i,
            forall|k: int|
                0 <= k < i ==> {
                    let p = #[trigger] reaches@[k];
                    &&& p.page == doc.pages@[k].id
                    &&& (p.direct as nat, p.reachable as nat, p.depth as nat) == page_reach(cm, doc.pages@[k].id)
                },
        decreases doc.pages.len() - i,
    {
        let page = doc.pages[i].id;
        let ghost kids_spec = kids_of(cm, page);
        let mut start: Vec<(NodeId, u128)> = Vec::new();
        let direct: usize = match parents.get(&node_key(page)) {
            Some(jr) => {
                let kids = &lists[*jr].children;
                assert(children_listed(cm, page) is Some);
                let mut t: usize = 0;
                while t < kids.len()
                    invariant
                        t <= kids.len(),
                        kids@ == kids_spec,
                        stack_view(start@) == kids_spec.take(t as int).map_values(|c: NodeId| (c, 1nat)),
                        forall|q: int| 0 <= q < start@.len() ==> (#[trigger] start@[q]).1 == 1,
                    decreases kids.len() - t,
                {
                    let ghost sv = stack_view(start@);
                    start.push((kids[t], 1));
                    assert(stack_view(start@) =~= sv.push((kids@[t as int], 1nat)));
                    assert(kids_spec.take(t + 1).map_values(|c: NodeId| (c, 1nat)) =~= kids_spec.take(
                        t as int,
                    ).map_values(|c: NodeId| (c, 1nat)).push((kids@[t as int], 1nat)));
                    t = t + 1;
                }
                assert(kids_spec.take(kids.len() as int) =~= kids_spec);
                kids.len()
            },
            None => {
                assert(children_listed(cm, page) is None);
                assert(stack_view(start@) =~= kids_spec.map_values(|c: NodeId| (c, 1nat)));
                0
            },
        };
        let (reachable, depth) = search_from(lists, &parents, start);
        reaches.push(PageReach { page, direct, reachable, depth });
        i = i + 1;
    }
    let pkeys = page_keys(&doc.pages);
    let ghost ns = node_views(doc.nodes@);
    let ghost pv = pages_view(doc.pages@);
    let mut orphaned: usize = 0;
    let mut n: usize = 0;
    while n < doc.nodes.len()
        invariant
            ns == node_views(doc.nodes@),
            cm == child_lists_view(lists@),
            lists == &doc.children_map,
            forall|id: NodeId|
                #![trigger children_listed(cm, id)]
                match children_listed(cm, id) {
                    Some(kids) => parents@.contains_key(id_key(id)) && parents@[id_key(id)] < lists@.len()
                        && lists@[parents@[id_key(id)] as int].children@ == kids,
                    None => !parents@.contains_key(id_key(id)),
                },
            forall|id: NodeId| #[trigger] pkeys@.contains(id_key(id)) == is_page_id(pv, id),
            forall|id: NodeId| #[trigger] seen@.contains(id_key(id)) == all_children(cm).contains(id),
            n <= doc.nodes.len(),
            orphaned <= n,
            orphaned == orphan_count(ns.take(n as int), cm, pv),
        decreases doc.nodes.len() - n,
    {
        assert(ns.take(n + 1).drop_last() =~= ns.take(n as int));
        assert(ns[n as int] == doc.nodes@[n as int]@);
        match doc.nodes[n].guid {
            Some(g) => {
                let key = node_key(g);
                let has_list = parents.contains_key(&key);
                proof {
                    match children_listed(cm, g) {
                        Some(_) => {},
                        None => {},
                    }
                }
                if has_list && !pkeys.contains(&key) && !seen.contains(&key) {
                    orphaned = orphaned + 1;
                }
            },
            None => {},
        }
        n = n + 1;
    }
    assert(ns.take(ns.len() as int) =~= ns);
    GraphReport { self_cycles: cycle_nodes.len(), cycle_nodes, multi_parent, pages: reaches, orphaned }
}

} // verus!
