//! Reference model of the property-graph store: nodes with stable internal
//! ids addressed by merge key, edges by id pairs, and the meaning of every
//! graph operation. The laws of the synchronizer — replaying a plan is a
//! no-op, renames keep edges — are stated and proved against this model,
//! and the in-memory store runs it for tests.

use vstd::prelude::*;
use crate::models::{EntityType, LinkType};
use crate::graph::{GraphOp, GraphOpView, props_view, spec_file_plan, spec_file_plan_nodes, spec_file_plan_links, all_merge_nodes, all_merge_edges, lemma_file_plan_shape, lemma_all_nodes_concat, lemma_all_edges_concat, spec_batch_plan, spec_batch_plan_nodes, spec_batch_plan_links};
use crate::models::FileStructure;

verus! {

/// The mathematical shape of one stored node.
#[verifier::ext_equal]
pub struct NodeV {
    pub nid: nat,
    pub label: EntityType,
    pub key: Seq<char>,
    pub name: Seq<char>,
    pub path: Seq<char>,
    pub start_line: Option<usize>,
    pub end_line: Option<usize>,
    pub props: Seq<(Seq<char>, Seq<char>)>,
}

/// The mathematical shape of one stored edge.
#[verifier::ext_equal]
pub struct EdgeV {
    pub from: nat,
    pub to: nat,
    pub rel: LinkType,
}

/// The mathematical shape of the whole store.
#[verifier::ext_equal]
pub struct StoreV {
    pub nodes: Seq<NodeV>,
    pub edges: Seq<EdgeV>,
    pub next_nid: nat,
}

/// Index of the first node with this merge key, or `-1`.
pub open spec fn find_key(nodes: Seq<NodeV>, key: Seq<char>) -> int
    decreases nodes.len(),
{
    if nodes.len() == 0 {
        -1
    } else if nodes[0].key == key {
        0
    } else {
        let r = find_key(nodes.drop_first(), key);
        if r < 0 {
            -1
        } else {
            r + 1
        }
    }
}

/// Does any node carry this merge key?
pub open spec fn has_key(nodes: Seq<NodeV>, key: Seq<char>) -> bool {
    find_key(nodes, key) >= 0
}

/// The internal id of the node found under this key.
pub open spec fn nid_of(nodes: Seq<NodeV>, key: Seq<char>) -> nat {
    nodes[find_key(nodes, key)].nid
}

/// Index of the first file node at this path, or `-1`.
pub open spec fn find_file(nodes: Seq<NodeV>, path: Seq<char>) -> int
    decreases nodes.len(),
{
    if nodes.len() == 0 {
        -1
    } else if nodes[0].label is File && nodes[0].key == path {
        0
    } else {
        let r = find_file(nodes.drop_first(), path);
        if r < 0 {
            -1
        } else {
            r + 1
        }
    }
}

pub proof fn lemma_find_key_props(nodes: Seq<NodeV>, key: Seq<char>)
    ensures
        -1 <= find_key(nodes, key) < nodes.len(),
        find_key(nodes, key) >= 0 ==> nodes[find_key(nodes, key)].key == key,
        find_key(nodes, key) >= 0 ==> forall|i: int|
            0 <= i < find_key(nodes, key) ==> (#[trigger] nodes[i]).key != key,
        find_key(nodes, key) < 0 ==> forall|i: int|
            0 <= i < nodes.len() ==> (#[trigger] nodes[i]).key != key,
    decreases nodes.len(),
{
    if nodes.len() > 0 && !(nodes[0].key == key) {
        lemma_find_key_props(nodes.drop_first(), key);
        assert(forall|i: int|
            0 < i < nodes.len() ==> (#[trigger] nodes[i]) == nodes.drop_first()[i - 1]);
    }
}

pub proof fn lemma_find_file_props(nodes: Seq<NodeV>, path: Seq<char>)
    ensures
        -1 <= find_file(nodes, path) < nodes.len(),
        find_file(nodes, path) >= 0 ==> nodes[find_file(nodes, path)].label is File
            && nodes[find_file(nodes, path)].key == path,
        find_file(nodes, path) >= 0 ==> forall|i: int|
            0 <= i < find_file(nodes, path) ==> !((#[trigger] nodes[i]).label is File
                && nodes[i].key == path),
        find_file(nodes, path) < 0 ==> forall|i: int|
            0 <= i < nodes.len() ==> !((#[trigger] nodes[i]).label is File && nodes[i].key
                == path),
    decreases nodes.len(),
{
    if nodes.len() > 0 && !(nodes[0].label is File && nodes[0].key == path) {
        lemma_find_file_props(nodes.drop_first(), path);
        assert(forall|i: int|
            0 < i < nodes.len() ==> (#[trigger] nodes[i]) == nodes.drop_first()[i - 1]);
    }
}

/// Two node runs with the same keys at the same positions resolve every
/// key to the same index.
pub proof fn lemma_find_key_same_keys(a: Seq<NodeV>, b: Seq<NodeV>)
    requires
        a.len() == b.len(),
        forall|i: int| 0 <= i < a.len() ==> (#[trigger] a[i]).key == b[i].key,
    ensures
        forall|k: Seq<char>| #[trigger] find_key(a, k) == find_key(b, k),
    decreases a.len(),
{
    if a.len() > 0 {
        assert(a[0].key == b[0].key);
        assert(a.drop_first().len() == b.drop_first().len());
        assert(forall|i: int|
            0 <= i < a.drop_first().len() ==> (#[trigger] a.drop_first()[i]).key
                == b.drop_first()[i].key);
        lemma_find_key_same_keys(a.drop_first(), b.drop_first());
        assert forall|k: Seq<char>| true implies #[trigger] find_key(a, k) == find_key(b, k) by {
            assert(find_key(a.drop_first(), k) == find_key(b.drop_first(), k));
        }
    }
}

/// Appending a node leaves every present key at its index; an absent key
/// resolves to the new node exactly when it is its key.
pub proof fn lemma_find_key_push(nodes: Seq<NodeV>, x: NodeV)
    ensures
        forall|k: Seq<char>|
            #[trigger] find_key(nodes.push(x), k) == if find_key(nodes, k) >= 0 {
                find_key(nodes, k)
            } else if x.key == k {
                nodes.len() as int
            } else {
                -1
            },
    decreases nodes.len(),
{
    if nodes.len() == 0 {
        assert forall|k: Seq<char>| true implies #[trigger] find_key(nodes.push(x), k) == (
        if find_key(nodes, k) >= 0 {
            find_key(nodes, k)
        } else if x.key == k {
            nodes.len() as int
        } else {
            -1
        }) by {
            assert(nodes.push(x)[0] == x);
            assert(nodes.push(x).drop_first() =~= Seq::<NodeV>::empty());
            assert(find_key(Seq::<NodeV>::empty(), k) == -1);
            assert(find_key(nodes, k) == -1);
        }
    } else {
        lemma_find_key_push(nodes.drop_first(), x);
        assert forall|k: Seq<char>| true implies #[trigger] find_key(nodes.push(x), k) == (
        if find_key(nodes, k) >= 0 {
            find_key(nodes, k)
        } else if x.key == k {
            nodes.len() as int
        } else {
            -1
        }) by {
            assert(nodes.push(x)[0] == nodes[0]);
            assert(nodes.push(x).drop_first() =~= nodes.drop_first().push(x));
            assert(find_key(nodes.drop_first().push(x), k) == if find_key(
                nodes.drop_first(),
                k,
            ) >= 0 {
                find_key(nodes.drop_first(), k)
            } else if x.key == k {
                nodes.drop_first().len() as int
            } else {
                -1
            });
        }
    }
}

/// Is this relationship a structural containment?
pub open spec fn is_containment(rel: LinkType) -> bool {
    rel is Has || rel is Owns
}

/// Does an edge run record that `owner` structurally contains `m`?
pub open spec fn contained_by(edges: Seq<EdgeV>, owner: nat, m: nat) -> bool {
    exists|i: int|
        0 <= i < edges.len() && (#[trigger] edges[i]).from == owner && edges[i].to == m
            && is_containment(edges[i].rel)
}

/// Is this node id deleted when the file node `owner` is removed?
pub open spec fn node_removed(edges: Seq<EdgeV>, owner: nat, nid: nat) -> bool {
    nid == owner || contained_by(edges, owner, nid)
}

/// The nodes surviving removal of the file node `owner`.
pub open spec fn filter_nodes(nodes: Seq<NodeV>, edges0: Seq<EdgeV>, owner: nat) -> Seq<NodeV>
    decreases nodes.len(),
{
    if nodes.len() == 0 {
        Seq::empty()
    } else {
        let rest = filter_nodes(nodes.drop_first(), edges0, owner);
        if node_removed(edges0, owner, nodes[0].nid) {
            rest
        } else {
            seq![nodes[0]] + rest
        }
    }
}

/// The edges surviving removal: those touching no deleted node.
pub open spec fn filter_edges(edges: Seq<EdgeV>, edges0: Seq<EdgeV>, owner: nat) -> Seq<EdgeV>
    decreases edges.len(),
{
    if edges.len() == 0 {
        Seq::empty()
    } else {
        let rest = filter_edges(edges.drop_first(), edges0, owner);
        if node_removed(edges0, owner, edges[0].from) || node_removed(
            edges0,
            owner,
            edges[0].to,
        ) {
            rest
        } else {
            seq![edges[0]] + rest
        }
    }
}

/// What one operation does to the store.
///
/// A node merge finds its key and overwrites the node in place, keeping
/// its internal id, or creates a fresh node. An edge merge resolves both
/// keys and adds the edge only when both endpoints exist and the edge is
/// absent. A rename rewrites key, path and name of the file node in place
/// — its id, and so all its edges, survive — and refuses a target key
/// that is already taken. A removal deletes the file node, every node it
/// structurally contains, and all edges touching any deleted node. Schema
/// operations do not change the data.
pub open spec fn spec_apply(s: StoreV, op: GraphOpView) -> StoreV {
    match op {
        GraphOpView::MergeNodeV { label, key, name, path, start_line, end_line, props } => {
            let i = find_key(s.nodes, key);
            if i >= 0 {
                StoreV {
                    nodes: s.nodes.update(
                        i,
                        NodeV {
                            nid: s.nodes[i].nid,
                            label,
                            key,
                            name,
                            path,
                            start_line,
                            end_line,
                            props,
                        },
                    ),
                    edges: s.edges,
                    next_nid: s.next_nid,
                }
            } else {
                StoreV {
                    nodes: s.nodes.push(
                        NodeV {
                            nid: s.next_nid,
                            label,
                            key,
                            name,
                            path,
                            start_line,
                            end_line,
                            props,
                        },
                    ),
                    edges: s.edges,
                    next_nid: s.next_nid + 1,
                }
            }
        },
        GraphOpView::MergeEdgeV { from_key, to_key, rel } => {
            let i = find_key(s.nodes, from_key);
            let j = find_key(s.nodes, to_key);
            if i >= 0 && j >= 0 {
                let e = EdgeV { from: s.nodes[i].nid, to: s.nodes[j].nid, rel };
                if s.edges.contains(e) {
                    s
                } else {
                    StoreV { nodes: s.nodes, edges: s.edges.push(e), next_nid: s.next_nid }
                }
            } else {
                s
            }
        },
        GraphOpView::RenameNodeV { from_path, to_path, new_name } => {
            let i = find_file(s.nodes, from_path);
            if i >= 0 && (from_path == to_path || !has_key(s.nodes, to_path)) {
                StoreV {
                    nodes: s.nodes.update(
                        i,
                        NodeV {
                            nid: s.nodes[i].nid,
                            label: s.nodes[i].label,
                            key: to_path,
                            name: new_name,
                            path: to_path,
                            start_line: s.nodes[i].start_line,
                            end_line: s.nodes[i].end_line,
                            props: s.nodes[i].props,
                        },
                    ),
                    edges: s.edges,
                    next_nid: s.next_nid,
                }
            } else {
                s
            }
        },
        GraphOpView::RemoveFileNodeV { path } => {
            let i = find_file(s.nodes, path);
            if i >= 0 {
                let owner = s.nodes[i].nid;
                StoreV {
                    nodes: filter_nodes(s.nodes, s.edges, owner),
                    edges: filter_edges(s.edges, s.edges, owner),
                    next_nid: s.next_nid,
                }
            } else {
                s
            }
        },
        GraphOpView::EnsureConstraintV { .. } => s,
        GraphOpView::EnsureIndexV { .. } => s,
    }
}

/// What a run of operations does, applied left to right.
pub open spec fn spec_apply_ops(s: StoreV, ops: Seq<GraphOpView>) -> StoreV
    decreases ops.len(),
{
    if ops.len() == 0 {
        s
    } else {
        spec_apply_ops(spec_apply(s, ops[0]), ops.drop_first())
    }
}

pub proof fn lemma_apply_ops_concat(s: StoreV, a: Seq<GraphOpView>, b: Seq<GraphOpView>)
    ensures
        spec_apply_ops(s, a + b) == spec_apply_ops(spec_apply_ops(s, a), b),
    decreases a.len(),
{
    if a.len() == 0 {
        assert(a + b =~= b);
    } else {
        assert((a + b)[0] == a[0]);
        assert((a + b).drop_first() =~= a.drop_first() + b);
        lemma_apply_ops_concat(spec_apply(s, a[0]), a.drop_first(), b);
    }
}

proof fn lemma_filter_nodes_push(nodes: Seq<NodeV>, x: NodeV, edges0: Seq<EdgeV>, owner: nat)
    ensures
        filter_nodes(nodes.push(x), edges0, owner) =~= filter_nodes(nodes, edges0, owner) + (
        if node_removed(edges0, owner, x.nid) {
            Seq::<NodeV>::empty()
        } else {
            seq![x]
        }),
    decreases nodes.len(),
{
    if nodes.len() == 0 {
        assert(nodes.push(x)[0] == x);
        assert(nodes.push(x).drop_first() =~= Seq::<NodeV>::empty());
        assert(filter_nodes(Seq::<NodeV>::empty(), edges0, owner) =~= Seq::<NodeV>::empty());
    } else {
        assert(nodes.push(x)[0] == nodes[0]);
        assert(nodes.push(x).drop_first() =~= nodes.drop_first().push(x));
        lemma_filter_nodes_push(nodes.drop_first(), x, edges0, owner);
    }
}

proof fn lemma_filter_edges_push(edges: Seq<EdgeV>, x: EdgeV, edges0: Seq<EdgeV>, owner: nat)
    ensures
        filter_edges(edges.push(x), edges0, owner) =~= filter_edges(edges, edges0, owner) + (
        if node_removed(edges0, owner, x.from) || node_removed(edges0, owner, x.to) {
            Seq::<EdgeV>::empty()
        } else {
            seq![x]
        }),
    decreases edges.len(),
{
    if edges.len() == 0 {
        assert(edges.push(x)[0] == x);
        assert(edges.push(x).drop_first() =~= Seq::<EdgeV>::empty());
        assert(filter_edges(Seq::<EdgeV>::empty(), edges0, owner) =~= Seq::<EdgeV>::empty());
    } else {
        assert(edges.push(x)[0] == edges[0]);
        assert(edges.push(x).drop_first() =~= edges.drop_first().push(x));
        lemma_filter_edges_push(edges.drop_first(), x, edges0, owner);
    }
}

/// How many nodes carry this label.
pub open spec fn count_label(nodes: Seq<NodeV>, label: EntityType) -> nat
    decreases nodes.len(),
{
    if nodes.len() == 0 {
        0
    } else {
        count_label(nodes.drop_first(), label) + (if nodes[0].label == label {
            1nat
        } else {
            0nat
        })
    }
}

proof fn lemma_count_label_push(nodes: Seq<NodeV>, x: NodeV, label: EntityType)
    ensures
        count_label(nodes.push(x), label) == count_label(nodes, label) + (if x.label == label {
            1nat
        } else {
            0nat
        }),
    decreases nodes.len(),
{
    if nodes.len() == 0 {
        assert(nodes.push(x)[0] == x);
        assert(nodes.push(x).drop_first() =~= Seq::<NodeV>::empty());
        assert(count_label(Seq::<NodeV>::empty(), label) == 0);
    } else {
        assert(nodes.push(x)[0] == nodes[0]);
        assert(nodes.push(x).drop_first() =~= nodes.drop_first().push(x));
        lemma_count_label_push(nodes.drop_first(), x, label);
    }
}

/// One stored node.
#[derive(Debug)]
pub struct GraphNode {
    pub nid: u64,
    pub label: EntityType,
    pub key: String,
    pub name: String,
    pub path: String,
    pub start_line: Option<usize>,
    pub end_line: Option<usize>,
    pub props: Vec<(String, String)>,
}

impl View for GraphNode {
    type V = NodeV;

    open spec fn view(&self) -> NodeV {
        NodeV {
            nid: self.nid as nat,
            label: self.label,
            key: self.key@,
            name: self.name@,
            path: self.path@,
            start_line: self.start_line,
            end_line: self.end_line,
            props: props_view(self.props@),
        }
    }
}

/// One stored edge.
#[derive(Clone, Copy, Debug)]
pub struct GraphEdge {
    pub from: u64,
    pub to: u64,
    pub rel: LinkType,
}

impl View for GraphEdge {
    type V = EdgeV;

    open spec fn view(&self) -> EdgeV {
        EdgeV { from: self.from as nat, to: self.to as nat, rel: self.rel }
    }
}

/// An in-memory store that runs the model: the reference backend the
/// tests exercise, faithful to `spec_apply` operation by operation.
pub struct GraphStore {
    nodes: Vec<GraphNode>,
    edges: Vec<GraphEdge>,
    next_nid: u64,
}

impl View for GraphStore {
    type V = StoreV;

    closed spec fn view(&self) -> StoreV {
        StoreV {
            nodes: self.nodes@.map_values(|n: GraphNode| n@),
            edges: self.edges@.map_values(|e: GraphEdge| e@),
            next_nid: self.next_nid as nat,
        }
    }
}

impl GraphStore {
    /// Creates an empty store.
    pub fn new() -> (r: GraphStore)
        ensures
            r@.nodes =~= Seq::<NodeV>::empty(),
            r@.edges =~= Seq::<EdgeV>::empty(),
            r@.next_nid == 0,
    {
        GraphStore { nodes: Vec::new(), edges: Vec::new(), next_nid: 0 }
    }

    /// Number of nodes in the store.
    pub fn node_count(&self) -> (r: usize)
        ensures
            r == self@.nodes.len(),
    {
        self.nodes.len()
    }

    /// Number of edges in the store.
    pub fn edge_count(&self) -> (r: usize)
        ensures
            r == self@.edges.len(),
    {
        self.edges.len()
    }

    /// Index of the first node under this key, if any.
    fn find_by_key(&self, key: &String) -> (r: Option<usize>)
        ensures
            match r {
                Some(i) => find_key(self@.nodes, key@) == i as int && i < self@.nodes.len(),
                None => find_key(self@.nodes, key@) == -1,
            },
    {
        proof {
            lemma_find_key_props(self@.nodes, key@);
        }
        let n = self.nodes.len();
        let mut i: usize = 0;
        while i < n
            invariant
                n == self.nodes@.len(),
                i <= n,
                forall|j: int| 0 <= j < i ==> (#[trigger] self.nodes@[j])@.key != key@,
            decreases n - i,
        {
            if self.nodes[i].key == *key {
                proof {
                    lemma_find_key_props(self@.nodes, key@);
                    assert(self@.nodes[i as int].key == key@);
                    assert forall|j: int| 0 <= j < i implies (#[trigger] self@.nodes[j]).key
                        != key@ by {
                        assert(self@.nodes[j] == self.nodes@[j]@);
                    }
                    let r = find_key(self@.nodes, key@);
                    if r < i as int {
                        if r >= 0 {
                            assert(self@.nodes[r].key != key@);
                        } else {
                            assert(self@.nodes[i as int].key != key@);
                        }
                        assert(false);
                    }
                    if r > i as int {
                        assert(self@.nodes[i as int].key != key@);
                        assert(false);
                    }
                }
                return Some(i);
            }
            i = i + 1;
        }
        proof {
            lemma_find_key_props(self@.nodes, key@);
            assert forall|j: int| 0 <= j < self@.nodes.len() implies (#[trigger] self@.nodes[j]).key
                != key@ by {
                assert(self@.nodes[j] == self.nodes@[j]@);
            }
        }
        None
    }

    /// Index of the first file node at this path, if any.
    fn find_file_at(&self, path: &String) -> (r: Option<usize>)
        ensures
            match r {
                Some(i) => find_file(self@.nodes, path@) == i as int && i < self@.nodes.len(),
                None => find_file(self@.nodes, path@) == -1,
            },
    {
        proof {
            lemma_find_file_props(self@.nodes, path@);
        }
        let n = self.nodes.len();
        let mut i: usize = 0;
        while i < n
            invariant
                n == self.nodes@.len(),
                i <= n,
                forall|j: int|
                    0 <= j < i ==> !((#[trigger] self.nodes@[j])@.label is File
                        && self.nodes@[j]@.key == path@),
            decreases n - i,
        {
            let is_file = self.nodes[i].label == EntityType::File;
            if is_file && self.nodes[i].key == *path {
                proof {
                    lemma_find_file_props(self@.nodes, path@);
                    assert(self@.nodes[i as int].label is File && self@.nodes[i as int].key
                        == path@);
                    assert forall|j: int| 0 <= j < i implies !((#[trigger] self@.nodes[j]).label
                        is File && self@.nodes[j].key == path@) by {
                        assert(self@.nodes[j] == self.nodes@[j]@);
                    }
                    let r = find_file(self@.nodes, path@);
                    if r < i as int {
                        if r >= 0 {
                            assert(!(self@.nodes[r].label is File && self@.nodes[r].key == path@));
                        } else {
                            assert(!(self@.nodes[i as int].label is File
                                && self@.nodes[i as int].key == path@));
                        }
                        assert(false);
                    }
                    if r > i as int {
                        assert(!(self@.nodes[i as int].label is File && self@.nodes[i as int].key
                            == path@));
                        assert(false);
                    }
                }
                return Some(i);
            }
            i = i + 1;
        }
        proof {
            lemma_find_file_props(self@.nodes, path@);
            assert forall|j: int| 0 <= j < self@.nodes.len() implies !((
            #[trigger] self@.nodes[j]).label is File && self@.nodes[j].key == path@) by {
                assert(self@.nodes[j] == self.nodes@[j]@);
            }
        }
        None
    }

    /// Does any node carry this key?
    pub fn has_node(&self, key: &String) -> (r: bool)
        ensures
            r == has_key(self@.nodes, key@),
    {
        match self.find_by_key(key) {
            Some(_) => true,
            None => false,
        }
    }

    /// Does a file node exist at this path?
    pub fn file_exists(&self, path: &String) -> (r: bool)
        ensures
            r == (find_file(self@.nodes, path@) >= 0),
    {
        match self.find_file_at(path) {
            Some(_) => true,
            None => false,
        }
    }

    /// Is this edge in the store, endpoints resolved by key?
    pub fn has_edge(&self, from_key: &String, to_key: &String, rel: LinkType) -> (r: bool)
        ensures
            r == (has_key(self@.nodes, from_key@) && has_key(self@.nodes, to_key@)
                && self@.edges.contains(
                EdgeV {
                    from: nid_of(self@.nodes, from_key@),
                    to: nid_of(self@.nodes, to_key@),
                    rel,
                },
            )),
    {
        let i = match self.find_by_key(from_key) {
            Some(i) => i,
            None => {
                return false;
            },
        };
        let j = match self.find_by_key(to_key) {
            Some(j) => j,
            None => {
                return false;
            },
        };
        let a = self.nodes[i].nid;
        let b = self.nodes[j].nid;
        self.contains_edge(a, b, rel)
    }

    /// Does the store hold this exact edge?
    fn contains_edge(&self, from: u64, to: u64, rel: LinkType) -> (r: bool)
        ensures
            r == self@.edges.contains(EdgeV { from: from as nat, to: to as nat, rel }),
    {
        let n = self.edges.len();
        let mut i: usize = 0;
        while i < n
            invariant
                n == self.edges@.len(),
                i <= n,
                forall|j: int|
                    0 <= j < i ==> (#[trigger] self.edges@[j])@ != (EdgeV {
                        from: from as nat,
                        to: to as nat,
                        rel,
                    }),
            decreases n - i,
        {
            let e = self.edges[i];
            if e.from == from && e.to == to && e.rel == rel {
                proof {
                    assert(self@.edges[i as int] == (EdgeV {
                        from: from as nat,
                        to: to as nat,
                        rel,
                    }));
                }
                return true;
            }
            i = i + 1;
        }
        proof {
            if self@.edges.contains(EdgeV { from: from as nat, to: to as nat, rel }) {
                let k = choose|k: int|
                    0 <= k < self@.edges.len() && self@.edges[k] == (EdgeV {
                        from: from as nat,
                        to: to as nat,
                        rel,
                    });
                assert(self.edges@[k]@ == (EdgeV { from: from as nat, to: to as nat, rel }));
            }
        }
        false
    }

    /// How many nodes carry this label?
    pub fn label_count(&self, label: EntityType) -> (r: usize)
        ensures
            r as nat == count_label(self@.nodes, label),
    {
        let n = self.nodes.len();
        let mut cnt: usize = 0;
        let mut i: usize = 0;
        while i < n
            invariant
                n == self.nodes@.len(),
                i <= n,
                cnt <= i,
                cnt as nat == count_label(self@.nodes.take(i as int), label),
            decreases n - i,
        {
            proof {
                lemma_count_label_push(self@.nodes.take(i as int), self@.nodes[i as int], label);
                assert(self@.nodes.take(i + 1) =~= self@.nodes.take(i as int).push(
                    self@.nodes[i as int],
                ));
            }
            if self.nodes[i].label == label {
                cnt = cnt + 1;
            }
            i = i + 1;
        }
        proof {
            assert(self@.nodes.take(n as int) =~= self@.nodes);
        }
        cnt
    }

    /// Does the original edge run contain this node inside `owner`?
    fn is_contained(&self, owner: u64, nid: u64) -> (r: bool)
        ensures
            r == contained_by(self@.edges, owner as nat, nid as nat),
    {
        let n = self.edges.len();
        let mut i: usize = 0;
        while i < n
            invariant
                n == self.edges@.len(),
                i <= n,
                forall|j: int|
                    0 <= j < i ==> !((#[trigger] self.edges@[j])@.from == owner as nat
                        && self.edges@[j]@.to == nid as nat && is_containment(
                        self.edges@[j]@.rel,
                    )),
            decreases n - i,
        {
            let e = self.edges[i];
            let cont = e.rel == LinkType::Has || e.rel == LinkType::Owns;
            if e.from == owner && e.to == nid && cont {
                proof {
                    assert(self@.edges[i as int].from == owner as nat && self@.edges[i as int].to
                        == nid as nat && is_containment(self@.edges[i as int].rel));
                }
                return true;
            }
            i = i + 1;
        }
        proof {
            if contained_by(self@.edges, owner as nat, nid as nat) {
                let k = choose|k: int|
                    0 <= k < self@.edges.len() && (#[trigger] self@.edges[k]).from == owner as nat
                        && self@.edges[k].to == nid as nat && is_containment(self@.edges[k].rel);
                assert(self.edges@[k]@.from == owner as nat);
            }
        }
        false
    }

    /// Applies one operation, exactly as the model says.
    pub fn apply(&mut self, op: &GraphOp)
        requires
            old(self)@.next_nid < u64::MAX,
        ensures
            final(self)@ == spec_apply(old(self)@, op@),
    {
        match op {
            GraphOp::MergeNode { label, key, name, path, start_line, end_line, props } => {
                match self.find_by_key(key) {
                    Some(i) => {
                        let node = GraphNode {
                            nid: self.nodes[i].nid,
                            label: *label,
                            key: key.clone(),
                            name: name.clone(),
                            path: path.clone(),
                            start_line: *start_line,
                            end_line: *end_line,
                            props: crate::graph::clone_props(props),
                        };
                        let ghost pre = self@;
                        self.nodes.set(i, node);
                        proof {
                            assert(self@.nodes =~= pre.nodes.update(
                                i as int,
                                NodeV {
                                    nid: pre.nodes[i as int].nid,
                                    label: *label,
                                    key: key@,
                                    name: name@,
                                    path: path@,
                                    start_line: *start_line,
                                    end_line: *end_line,
                                    props: props_view(props@),
                                },
                            ));
                            assert(self@ =~= spec_apply(pre, op@));
                        }
                    },
                    None => {
                        let node = GraphNode {
                            nid: self.next_nid,
                            label: *label,
                            key: key.clone(),
                            name: name.clone(),
                            path: path.clone(),
                            start_line: *start_line,
                            end_line: *end_line,
                            props: crate::graph::clone_props(props),
                        };
                        let ghost pre = self@;
                        self.nodes.push(node);
                        self.next_nid = self.next_nid + 1;
                        proof {
                            assert(self@.nodes =~= pre.nodes.push(
                                NodeV {
                                    nid: pre.next_nid,
                                    label: *label,
                                    key: key@,
                                    name: name@,
                                    path: path@,
                                    start_line: *start_line,
                                    end_line: *end_line,
                                    props: props_view(props@),
                                },
                            ));
                            assert(self@ =~= spec_apply(pre, op@));
                        }
                    },
                }
            },
            GraphOp::MergeEdge { from_key, to_key, rel } => {
                let i = match self.find_by_key(from_key) {
                    Some(i) => i,
                    None => {
                        return ;
                    },
                };
                let j = match self.find_by_key(to_key) {
                    Some(j) => j,
                    None => {
                        return ;
                    },
                };
                let a = self.nodes[i].nid;
                let b = self.nodes[j].nid;
                if !self.contains_edge(a, b, *rel) {
                    let ghost pre = self@;
                    self.edges.push(GraphEdge { from: a, to: b, rel: *rel });
                    proof {
                        assert(self@.edges =~= pre.edges.push(
                            EdgeV { from: a as nat, to: b as nat, rel: *rel },
                        ));
                        assert(self@ =~= spec_apply(pre, op@));
                    }
                }
            },
            GraphOp::RenameNode { from_path, to_path, new_name } => {
                let i = match self.find_file_at(from_path) {
                    Some(i) => i,
                    None => {
                        return ;
                    },
                };
                let same = *from_path == *to_path;
                if !same && self.has_node(to_path) {
                    return ;
                }
                let node = GraphNode {
                    nid: self.nodes[i].nid,
                    label: self.nodes[i].label,
                    key: to_path.clone(),
                    name: new_name.clone(),
                    path: to_path.clone(),
                    start_line: self.nodes[i].start_line,
                    end_line: self.nodes[i].end_line,
                    props: crate::graph::clone_props(&self.nodes[i].props),
                };
                let ghost pre = self@;
                self.nodes.set(i, node);
                proof {
                    assert(self@.nodes =~= pre.nodes.update(
                        i as int,
                        NodeV {
                            nid: pre.nodes[i as int].nid,
                            label: pre.nodes[i as int].label,
                            key: to_path@,
                            name: new_name@,
                            path: to_path@,
                            start_line: pre.nodes[i as int].start_line,
                            end_line: pre.nodes[i as int].end_line,
                            props: pre.nodes[i as int].props,
                        },
                    ));
                    assert(self@ =~= spec_apply(pre, op@));
                }
            },
            GraphOp::RemoveFileNode { path } => {
                let i = match self.find_file_at(path) {
                    Some(i) => i,
                    None => {
                        return ;
                    },
                };
                let owner = self.nodes[i].nid;
                let ghost pre = self@;

                // Surviving edges, judged against the original edge run.
                let en = self.edges.len();
                let mut kept_edges: Vec<GraphEdge> = Vec::new();
                let mut k: usize = 0;
                proof {
                    assert(pre.edges.take(0) =~= Seq::<EdgeV>::empty());
                    assert(filter_edges(Seq::<EdgeV>::empty(), pre.edges, owner as nat) =~= Seq::<
                        EdgeV,
                    >::empty());
                }
                while k < en
                    invariant
                        en == self.edges@.len(),
                        k <= en,
                        self@ == pre,
                        owner as nat == pre.nodes[find_file(pre.nodes, path@)].nid,
                        kept_edges@.map_values(|e: GraphEdge| e@) =~= filter_edges(
                            pre.edges.take(k as int),
                            pre.edges,
                            owner as nat,
                        ),
                    decreases en - k,
                {
                    let e = self.edges[k];
                    let drop_from = e.from == owner || self.is_contained(owner, e.from);
                    let drop_to = e.to == owner || self.is_contained(owner, e.to);
                    let ghost prev = kept_edges@.map_values(|e2: GraphEdge| e2@);
                    if !drop_from && !drop_to {
                        kept_edges.push(e);
                        proof {
                            assert(kept_edges@.map_values(|e2: GraphEdge| e2@) =~= prev.push(
                                pre.edges[k as int],
                            ));
                        }
                    }
                    proof {
                        lemma_filter_edges_push(
                            pre.edges.take(k as int),
                            pre.edges[k as int],
                            pre.edges,
                            owner as nat,
                        );
                        assert(pre.edges.take(k + 1) =~= pre.edges.take(k as int).push(
                            pre.edges[k as int],
                        ));
                    }
                    k = k + 1;
                }
                proof {
                    assert(pre.edges.take(en as int) =~= pre.edges);
                }

                // Surviving nodes, still judged against the original edges.
                let nn = self.nodes.len();
                let mut kept_nodes: Vec<GraphNode> = Vec::new();
                let mut m: usize = 0;
                proof {
                    assert(pre.nodes.take(0) =~= Seq::<NodeV>::empty());
                    assert(filter_nodes(Seq::<NodeV>::empty(), pre.edges, owner as nat) =~= Seq::<
                        NodeV,
                    >::empty());
                }
                proof {
                    assert(pre.nodes.skip(0) =~= pre.nodes);
                }
                while m < nn
                    invariant
                        nn == pre.nodes.len(),
                        self@.next_nid == pre.next_nid,
                        self.nodes@.len() + m == pre.nodes.len(),
                        self.edges@.map_values(|e: GraphEdge| e@) == pre.edges,
                        m <= pre.nodes.len(),
                        owner as nat == pre.nodes[find_file(pre.nodes, path@)].nid,
                        self.nodes@.map_values(|n2: GraphNode| n2@) =~= pre.nodes.skip(m as int),
                        kept_nodes@.map_values(|n2: GraphNode| n2@) =~= filter_nodes(
                            pre.nodes.take(m as int),
                            pre.edges,
                            owner as nat,
                        ),
                    decreases pre.nodes.len() - m,
                {
                    let ghost cur = self.nodes@;
                    let node = self.nodes.remove(0);
                    proof {
                        assert(cur.map_values(|n2: GraphNode| n2@)[0] == cur[0]@);
                        assert(pre.nodes.skip(m as int)[0] == pre.nodes[m as int]);
                        assert(node@ == pre.nodes[m as int]);
                        assert(self.nodes@ =~= cur.drop_first());
                        assert(self.nodes@.map_values(|n2: GraphNode| n2@) =~= cur.map_values(
                            |n2: GraphNode| n2@,
                        ).drop_first());
                        assert(pre.nodes.skip(m as int).drop_first() =~= pre.nodes.skip(m + 1));
                        assert(self.nodes@.map_values(|n2: GraphNode| n2@) =~= pre.nodes.skip(
                            m + 1,
                        ));
                    }
                    let nid = node.nid;
                    let drop_it = nid == owner || self.is_contained(owner, nid);
                    let ghost prev = kept_nodes@.map_values(|n2: GraphNode| n2@);
                    if !drop_it {
                        kept_nodes.push(node);
                        proof {
                            assert(kept_nodes@.map_values(|n2: GraphNode| n2@) =~= prev.push(
                                pre.nodes[m as int],
                            ));
                        }
                    }
                    proof {
                        lemma_filter_nodes_push(
                            pre.nodes.take(m as int),
                            pre.nodes[m as int],
                            pre.edges,
                            owner as nat,
                        );
                        assert(pre.nodes.take(m + 1) =~= pre.nodes.take(m as int).push(
                            pre.nodes[m as int],
                        ));
                    }
                    m = m + 1;
                }
                proof {
                    assert(pre.nodes.take(nn as int) =~= pre.nodes);
                }
                self.nodes = kept_nodes;
                self.edges = kept_edges;
                proof {
                    assert(self@ =~= spec_apply(pre, op@));
                }
            },
            GraphOp::EnsureConstraint { .. } => {},
            GraphOp::EnsureIndex { .. } => {},
        }
    }

    /// Applies a run of operations left to right.
    pub fn apply_all(&mut self, ops: &Vec<GraphOp>)
        requires
            old(self)@.next_nid + ops@.len() <= u64::MAX,
        ensures
            final(self)@ == spec_apply_ops(old(self)@, ops@.map_values(|o: GraphOp| o@)),
    {
        let n = ops.len();
        let ghost opsv = ops@.map_values(|o: GraphOp| o@);
        let mut i: usize = 0;
        proof {
            assert(opsv.skip(0) =~= opsv);
        }
        while i < n
            invariant
                n == ops@.len(),
                opsv == ops@.map_values(|o: GraphOp| o@),
                i <= n,
                self@.next_nid + (n - i) <= u64::MAX,
                spec_apply_ops(old(self)@, opsv) == spec_apply_ops(self@, opsv.skip(i as int)),
            decreases n - i,
        {
            proof {
                assert(opsv.skip(i as int)[0] == opsv[i as int]);
                assert(opsv.skip(i as int).drop_first() =~= opsv.skip(i + 1));
                lemma_apply_next_nid_growth(self@, opsv[i as int]);
            }
            self.apply(&ops[i]);
            i = i + 1;
        }
        proof {
            assert(opsv.skip(n as int).len() == 0);
        }
    }
}

/// One operation raises the id counter by at most one.
proof fn lemma_apply_next_nid_growth(s: StoreV, op: GraphOpView)
    ensures
        spec_apply(s, op).next_nid <= s.next_nid + 1,
{
}

proof fn lemma_contains_push(edges: Seq<EdgeV>, x: EdgeV, e: EdgeV)
    requires
        edges.contains(e),
    ensures
        edges.push(x).contains(e),
{
    let k = choose|k: int| 0 <= k < edges.len() && edges[k] == e;
    assert(edges.push(x)[k] == e);
}

/// One node or edge merge keeps every present key at its id, keeps every
/// edge, and never shrinks the store.
proof fn lemma_merge_step(s: StoreV, op: GraphOpView)
    requires
        op is MergeNodeV || op is MergeEdgeV,
    ensures
        spec_apply(s, op).nodes.len() >= s.nodes.len(),
        forall|k: Seq<char>|
            #[trigger] find_key(s.nodes, k) >= 0 ==> find_key(spec_apply(s, op).nodes, k) >= 0
                && nid_of(spec_apply(s, op).nodes, k) == nid_of(s.nodes, k),
        forall|e: EdgeV|
            s.edges.contains(e) ==> spec_apply(s, op).edges.contains(e),
        op is MergeNodeV ==> has_key(spec_apply(s, op).nodes, op->MergeNodeV_key),
        op is MergeEdgeV ==> spec_apply(s, op).nodes == s.nodes,
{
    let s2 = spec_apply(s, op);
    match op {
        GraphOpView::MergeNodeV { key, .. } => {
            let i = find_key(s.nodes, key);
            proof_merge_node_keys(s, op);
        },
        GraphOpView::MergeEdgeV { from_key, to_key, rel } => {
            let i = find_key(s.nodes, from_key);
            let j = find_key(s.nodes, to_key);
            if i >= 0 && j >= 0 {
                let e0 = EdgeV { from: s.nodes[i].nid, to: s.nodes[j].nid, rel };
                if !s.edges.contains(e0) {
                    assert forall|e: EdgeV| s.edges.contains(e) implies s2.edges.contains(e) by {
                        lemma_contains_push(s.edges, e0, e);
                    }
                }
            }
        },
        _ => {},
    }
}

proof fn proof_merge_node_keys(s: StoreV, op: GraphOpView)
    requires
        op is MergeNodeV,
    ensures
        spec_apply(s, op).nodes.len() >= s.nodes.len(),
        forall|k: Seq<char>|
            #[trigger] find_key(s.nodes, k) >= 0 ==> find_key(spec_apply(s, op).nodes, k) >= 0
                && nid_of(spec_apply(s, op).nodes, k) == nid_of(s.nodes, k),
        forall|e: EdgeV|
            s.edges.contains(e) ==> spec_apply(s, op).edges.contains(e),
        has_key(spec_apply(s, op).nodes, op->MergeNodeV_key),
{
    let key = op->MergeNodeV_key;
    let s2 = spec_apply(s, op);
    let i = find_key(s.nodes, key);
    lemma_find_key_props(s.nodes, key);
    if i >= 0 {
        assert(s.nodes[i].key == key);
        assert(s2.nodes.len() == s.nodes.len());
        assert(forall|j: int|
            0 <= j < s.nodes.len() ==> (#[trigger] s2.nodes[j]).key == s.nodes[j].key);
        lemma_find_key_same_keys(s.nodes, s2.nodes);
        assert forall|k: Seq<char>| #[trigger]
            find_key(s.nodes, k) >= 0 implies find_key(s2.nodes, k) >= 0 && nid_of(s2.nodes, k)
            == nid_of(s.nodes, k) by {
            lemma_find_key_props(s.nodes, k);
            assert(find_key(s2.nodes, k) == find_key(s.nodes, k));
            assert(s2.nodes[find_key(s.nodes, k)].nid == s.nodes[find_key(s.nodes, k)].nid);
        }
        assert(find_key(s2.nodes, key) == i);
    } else {
        let x = s2.nodes[s.nodes.len() as int];
        lemma_find_key_push(s.nodes, x);
        assert(s2.nodes =~= s.nodes.push(x));
        assert forall|k: Seq<char>| #[trigger]
            find_key(s.nodes, k) >= 0 implies find_key(s2.nodes, k) >= 0 && nid_of(s2.nodes, k)
            == nid_of(s.nodes, k) by {
            lemma_find_key_props(s.nodes, k);
            assert(find_key(s.nodes.push(x), k) == find_key(s.nodes, k));
            assert(s.nodes.push(x)[find_key(s.nodes, k)] == s.nodes[find_key(s.nodes, k)]);
        }
        assert(x.key == key);
        assert(find_key(s.nodes.push(x), key) == s.nodes.len() as int);
    }
}

/// A run of merges keeps every present key at its id, keeps every edge,
/// and ends with every merged key present.
proof fn lemma_merge_ops_monotone(s: StoreV, ops: Seq<GraphOpView>)
    requires
        forall|i: int|
            0 <= i < ops.len() ==> (#[trigger] ops[i]) is MergeNodeV || ops[i] is MergeEdgeV,
    ensures
        forall|k: Seq<char>|
            #[trigger] find_key(s.nodes, k) >= 0 ==> find_key(spec_apply_ops(s, ops).nodes, k)
                >= 0 && nid_of(spec_apply_ops(s, ops).nodes, k) == nid_of(s.nodes, k),
        forall|e: EdgeV|
            s.edges.contains(e) ==> spec_apply_ops(s, ops).edges.contains(e),
        forall|i: int|
            0 <= i < ops.len() && (#[trigger] ops[i]) is MergeNodeV ==> has_key(
                spec_apply_ops(s, ops).nodes,
                ops[i]->MergeNodeV_key,
            ),
    decreases ops.len(),
{
    if ops.len() > 0 {
        let s1 = spec_apply(s, ops[0]);
        lemma_merge_step(s, ops[0]);
        assert(forall|i: int|
            0 <= i < ops.drop_first().len() ==> (#[trigger] ops.drop_first()[i]) is MergeNodeV
                || ops.drop_first()[i] is MergeEdgeV);
        lemma_merge_ops_monotone(s1, ops.drop_first());
        let s2 = spec_apply_ops(s, ops);
        assert(s2 == spec_apply_ops(s1, ops.drop_first()));
        assert forall|i: int|
            0 <= i < ops.len() && (#[trigger] ops[i]) is MergeNodeV implies has_key(
            s2.nodes,
            ops[i]->MergeNodeV_key,
        ) by {
            if i == 0 {
                assert(has_key(s1.nodes, ops[0]->MergeNodeV_key));
                assert(find_key(s1.nodes, ops[0]->MergeNodeV_key) >= 0);
            } else {
                assert(ops.drop_first()[i - 1] == ops[i]);
            }
        }
    }
}

/// A run of edge merges never touches the nodes, and ends holding the
/// edge of every operation whose endpoints resolve.
proof fn lemma_edge_block(s: StoreV, ops: Seq<GraphOpView>)
    requires
        all_merge_edges(ops),
    ensures
        spec_apply_ops(s, ops).nodes == s.nodes,
        spec_apply_ops(s, ops).next_nid == s.next_nid,
        forall|e: EdgeV|
            s.edges.contains(e) ==> spec_apply_ops(s, ops).edges.contains(e),
        forall|i: int|
            0 <= i < ops.len() && has_key(s.nodes, (#[trigger] ops[i])->MergeEdgeV_from_key)
                && has_key(s.nodes, ops[i]->MergeEdgeV_to_key) ==> spec_apply_ops(
                s,
                ops,
            ).edges.contains(
                EdgeV {
                    from: nid_of(s.nodes, ops[i]->MergeEdgeV_from_key),
                    to: nid_of(s.nodes, ops[i]->MergeEdgeV_to_key),
                    rel: ops[i]->MergeEdgeV_rel,
                },
            ),
    decreases ops.len(),
{
    if ops.len() > 0 {
        let s1 = spec_apply(s, ops[0]);
        lemma_merge_step(s, ops[0]);
        assert(all_merge_edges(ops.drop_first()));
        lemma_edge_block(s1, ops.drop_first());
        let s2 = spec_apply_ops(s, ops);
        assert(s2 == spec_apply_ops(s1, ops.drop_first()));
        assert(s1.nodes == s.nodes);
        assert forall|i: int|
            0 <= i < ops.len() && has_key(s.nodes, (#[trigger] ops[i])->MergeEdgeV_from_key)
                && has_key(s.nodes, ops[i]->MergeEdgeV_to_key) implies s2.edges.contains(
            EdgeV {
                from: nid_of(s.nodes, ops[i]->MergeEdgeV_from_key),
                to: nid_of(s.nodes, ops[i]->MergeEdgeV_to_key),
                rel: ops[i]->MergeEdgeV_rel,
            },
        ) by {
            if i == 0 {
                let a = ops[0]->MergeEdgeV_from_key;
                let b = ops[0]->MergeEdgeV_to_key;
                let e0 = EdgeV {
                    from: nid_of(s.nodes, a),
                    to: nid_of(s.nodes, b),
                    rel: ops[0]->MergeEdgeV_rel,
                };
                lemma_find_key_props(s.nodes, a);
                lemma_find_key_props(s.nodes, b);
                if s.edges.contains(e0) {
                    assert(s1.edges.contains(e0));
                } else {
                    assert(s1.edges == s.edges.push(e0));
                    assert(s1.edges[s.edges.len() as int] == e0);
                    assert(s1.edges.contains(e0));
                }
            } else {
                assert(ops.drop_first()[i - 1] == ops[i]);
            }
        }
    }
}

/// Replaying a node block against a store that already resolves every
/// merged key leaves node count, keys, ids, edges and the id counter
/// untouched.
proof fn lemma_node_block_stutter(sref: StoreV, t: StoreV, ops: Seq<GraphOpView>)
    requires
        all_merge_nodes(ops),
        t.nodes.len() == sref.nodes.len(),
        forall|i: int|
            0 <= i < t.nodes.len() ==> (#[trigger] t.nodes[i]).key == sref.nodes[i].key
                && t.nodes[i].nid == sref.nodes[i].nid,
        t.edges == sref.edges,
        t.next_nid == sref.next_nid,
        forall|i: int|
            0 <= i < ops.len() ==> has_key(sref.nodes, (#[trigger] ops[i])->MergeNodeV_key),
    ensures
        spec_apply_ops(t, ops).nodes.len() == sref.nodes.len(),
        forall|i: int|
            0 <= i < sref.nodes.len() ==> (#[trigger] spec_apply_ops(t, ops).nodes[i]).key
                == sref.nodes[i].key && spec_apply_ops(t, ops).nodes[i].nid == sref.nodes[i].nid,
        spec_apply_ops(t, ops).edges == sref.edges,
        spec_apply_ops(t, ops).next_nid == sref.next_nid,
    decreases ops.len(),
{
    if ops.len() > 0 {
        let key = ops[0]->MergeNodeV_key;
        lemma_find_key_same_keys(t.nodes, sref.nodes);
        assert(find_key(t.nodes, key) == find_key(sref.nodes, key));
        assert(has_key(sref.nodes, key));
        lemma_find_key_props(t.nodes, key);
        let t1 = spec_apply(t, ops[0]);
        assert(t1.nodes.len() == t.nodes.len());
        assert(forall|i: int|
            0 <= i < t1.nodes.len() ==> (#[trigger] t1.nodes[i]).key == t.nodes[i].key
                && t1.nodes[i].nid == t.nodes[i].nid);
        assert(forall|i: int|
            0 <= i < ops.drop_first().len() ==> has_key(
                sref.nodes,
                (#[trigger] ops.drop_first()[i])->MergeNodeV_key,
            ));
        lemma_node_block_stutter(sref, t1, ops.drop_first());
        assert(spec_apply_ops(t, ops) == spec_apply_ops(t1, ops.drop_first()));
    }
}

/// Replaying an edge block against a store that already holds every
/// resolvable edge changes nothing at all.
proof fn lemma_edge_block_stutter(sref: StoreV, t: StoreV, ops: Seq<GraphOpView>)
    requires
        all_merge_edges(ops),
        t.nodes.len() == sref.nodes.len(),
        forall|i: int|
            0 <= i < t.nodes.len() ==> (#[trigger] t.nodes[i]).key == sref.nodes[i].key
                && t.nodes[i].nid == sref.nodes[i].nid,
        t.edges == sref.edges,
        t.next_nid == sref.next_nid,
        forall|i: int|
            0 <= i < ops.len() && has_key(sref.nodes, (#[trigger] ops[i])->MergeEdgeV_from_key)
                && has_key(sref.nodes, ops[i]->MergeEdgeV_to_key) ==> sref.edges.contains(
                EdgeV {
                    from: nid_of(sref.nodes, ops[i]->MergeEdgeV_from_key),
                    to: nid_of(sref.nodes, ops[i]->MergeEdgeV_to_key),
                    rel: ops[i]->MergeEdgeV_rel,
                },
            ),
    ensures
        spec_apply_ops(t, ops).nodes == t.nodes,
        spec_apply_ops(t, ops).edges == sref.edges,
        spec_apply_ops(t, ops).next_nid == sref.next_nid,
    decreases ops.len(),
{
    if ops.len() > 0 {
        let a = ops[0]->MergeEdgeV_from_key;
        let b = ops[0]->MergeEdgeV_to_key;
        lemma_find_key_same_keys(t.nodes, sref.nodes);
        lemma_find_key_props(t.nodes, a);
        lemma_find_key_props(t.nodes, b);
        let t1 = spec_apply(t, ops[0]);
        if find_key(t.nodes, a) >= 0 && find_key(t.nodes, b) >= 0 {
            assert(t.nodes[find_key(t.nodes, a)].nid == nid_of(sref.nodes, a));
            assert(t.nodes[find_key(t.nodes, b)].nid == nid_of(sref.nodes, b));
            assert(t.edges.contains(
                EdgeV {
                    from: nid_of(sref.nodes, a),
                    to: nid_of(sref.nodes, b),
                    rel: ops[0]->MergeEdgeV_rel,
                },
            ));
            assert(t1 == t);
        } else {
            assert(t1 == t);
        }
        assert(forall|i: int|
            0 <= i < ops.drop_first().len() ==> (#[trigger] ops.drop_first()[i]) == ops[i + 1]);
        lemma_edge_block_stutter(sref, t1, ops.drop_first());
        assert(spec_apply_ops(t, ops) == spec_apply_ops(t1, ops.drop_first()));
    }
}

/// Ingestion idempotence: a plan that writes all its nodes before any of
/// its edges can be replayed against the store it produced without any
/// net change — node and edge counts stay exactly as they were, because
/// every node merge lands on its existing node and every edge merge finds
/// its edge already present.
pub proof fn lemma_replay_plan_no_net_change(
    s: StoreV,
    node_ops: Seq<GraphOpView>,
    edge_ops: Seq<GraphOpView>,
)
    requires
        all_merge_nodes(node_ops),
        all_merge_edges(edge_ops),
    ensures
        ({
            let ops = node_ops + edge_ops;
            let s1 = spec_apply_ops(s, ops);
            let s2 = spec_apply_ops(s1, ops);
            s2.nodes.len() == s1.nodes.len() && s2.edges == s1.edges
        }),
{
    let ops = node_ops + edge_ops;
    lemma_apply_ops_concat(s, node_ops, edge_ops);
    let s_mid = spec_apply_ops(s, node_ops);
    let s1 = spec_apply_ops(s_mid, edge_ops);
    assert(forall|i: int|
        0 <= i < node_ops.len() ==> (#[trigger] node_ops[i]) is MergeNodeV || node_ops[i]
            is MergeEdgeV);
    lemma_merge_ops_monotone(s, node_ops);
    lemma_edge_block(s_mid, edge_ops);
    assert(s1.nodes == s_mid.nodes);

    // Round two: first the node block stutters on s1, then the edge
    // block finds everything present.
    lemma_apply_ops_concat(s1, node_ops, edge_ops);
    let t_mid = spec_apply_ops(s1, node_ops);
    assert(forall|i: int|
        0 <= i < node_ops.len() ==> has_key(s1.nodes, (#[trigger] node_ops[i])->MergeNodeV_key));
    lemma_node_block_stutter(s1, s1, node_ops);
    assert forall|i: int|
        0 <= i < edge_ops.len() && has_key(s1.nodes, (#[trigger] edge_ops[i])->MergeEdgeV_from_key)
            && has_key(s1.nodes, edge_ops[i]->MergeEdgeV_to_key) implies s1.edges.contains(
        EdgeV {
            from: nid_of(s1.nodes, edge_ops[i]->MergeEdgeV_from_key),
            to: nid_of(s1.nodes, edge_ops[i]->MergeEdgeV_to_key),
            rel: edge_ops[i]->MergeEdgeV_rel,
        },
    ) by {
        assert(has_key(s_mid.nodes, edge_ops[i]->MergeEdgeV_from_key));
        assert(has_key(s_mid.nodes, edge_ops[i]->MergeEdgeV_to_key));
    }
    lemma_edge_block_stutter(s1, t_mid, edge_ops);
    let s2 = spec_apply_ops(s1, ops);
    assert(s2 == spec_apply_ops(t_mid, edge_ops));
    assert(s2.nodes == t_mid.nodes);
}

/// Rename consistency: renaming the file at `from` to `to` moves exactly
/// one node — it keeps its internal id, label, line range and properties,
/// becomes reachable under `to` and unreachable under `from` — and every
/// edge of the store, containment or not, survives untouched.
pub proof fn lemma_rename_consistency(
    s: StoreV,
    from_path: Seq<char>,
    to_path: Seq<char>,
    new_name: Seq<char>,
)
    requires
        forall|i: int, j: int|
            0 <= i < j < s.nodes.len() ==> (#[trigger] s.nodes[i]).key != (
            #[trigger] s.nodes[j]).key,
        find_file(s.nodes, from_path) >= 0,
        from_path != to_path,
        !has_key(s.nodes, to_path),
    ensures
        ({
            let s2 = spec_apply(
                s,
                GraphOpView::RenameNodeV { from_path, to_path, new_name },
            );
            let i = find_file(s.nodes, from_path);
            s2.edges == s.edges && s2.nodes.len() == s.nodes.len() && !has_key(
                s2.nodes,
                from_path,
            ) && has_key(s2.nodes, to_path) && nid_of(s2.nodes, to_path) == s.nodes[i].nid
                && s2.nodes[i].label == s.nodes[i].label && s2.nodes[i].props == s.nodes[i].props
                && s2.nodes[i].name == new_name && s2.nodes[i].path == to_path && forall|j: int|
                0 <= j < s.nodes.len() && j != i ==> (#[trigger] s2.nodes[j]) == s.nodes[j]
        }),
{
    let op = GraphOpView::RenameNodeV { from_path, to_path, new_name };
    let s2 = spec_apply(s, op);
    let i = find_file(s.nodes, from_path);
    lemma_find_file_props(s.nodes, from_path);
    lemma_find_key_props(s2.nodes, from_path);
    lemma_find_key_props(s2.nodes, to_path);
    assert(s.nodes[i].key == from_path);
    if has_key(s2.nodes, from_path) {
        let r = find_key(s2.nodes, from_path);
        assert(s2.nodes[r].key == from_path);
        assert(r != i);
        assert(s2.nodes[r] == s.nodes[r]);
        assert(s.nodes[r].key == s.nodes[i].key);
        assert(false);
    }
    assert(s2.nodes[i].key == to_path);
    if !has_key(s2.nodes, to_path) {
        assert(s2.nodes[i].key != to_path);
        assert(false);
    }
    let r2 = find_key(s2.nodes, to_path);
    assert(s2.nodes[r2].key == to_path);
    if r2 != i {
        assert(s2.nodes[r2] == s.nodes[r2]);
        assert(has_key(s.nodes, to_path)) by {
            lemma_find_key_props(s.nodes, to_path);
            if find_key(s.nodes, to_path) < 0 {
                assert(s.nodes[r2].key != to_path);
            }
        }
        assert(false);
    }
}

/// Idempotent ingestion: replaying one file's whole plan against the
/// store it just produced changes neither the node count nor the edges.
/// Together with the parser's determinism this makes re-indexing an
/// unchanged file a no-op.
pub proof fn lemma_reingest_file_no_net_change(s: StoreV, fs: FileStructure)
    ensures
        ({
            let s1 = spec_apply_ops(s, spec_file_plan(fs));
            let s2 = spec_apply_ops(s1, spec_file_plan(fs));
            s2.nodes.len() == s1.nodes.len() && s2.edges == s1.edges
        }),
{
    lemma_file_plan_shape(fs);
    lemma_replay_plan_no_net_change(s, spec_file_plan_nodes(fs), spec_file_plan_links(fs));
}

/// Is some node carrying this internal id?
pub open spec fn nid_present(nodes: Seq<NodeV>, n: nat) -> bool {
    exists|i: int| 0 <= i < nodes.len() && (#[trigger] nodes[i]).nid == n
}

/// The store's structural soundness: internal ids and merge keys are
/// unique, ids stay below the counter, every edge endpoint exists, and no
/// edge is recorded twice.
pub open spec fn wf_store(s: StoreV) -> bool {
    &&& forall|i: int, j: int|
        0 <= i < j < s.nodes.len() ==> (#[trigger] s.nodes[i]).nid != (#[trigger] s.nodes[j]).nid
    &&& forall|i: int, j: int|
        0 <= i < j < s.nodes.len() ==> (#[trigger] s.nodes[i]).key != (#[trigger] s.nodes[j]).key
    &&& forall|i: int| 0 <= i < s.nodes.len() ==> (#[trigger] s.nodes[i]).nid < s.next_nid
    &&& forall|i: int|
        0 <= i < s.edges.len() ==> nid_present(s.nodes, (#[trigger] s.edges[i]).from)
            && nid_present(s.nodes, s.edges[i].to)
    &&& forall|i: int, j: int|
        0 <= i < j < s.edges.len() ==> (#[trigger] s.edges[i]) != (#[trigger] s.edges[j])
}

proof fn lemma_filter_nodes_wf(nodes: Seq<NodeV>, edges0: Seq<EdgeV>, owner: nat)
    requires
        forall|i: int, j: int|
            0 <= i < j < nodes.len() ==> (#[trigger] nodes[i]).nid != (#[trigger] nodes[j]).nid,
        forall|i: int, j: int|
            0 <= i < j < nodes.len() ==> (#[trigger] nodes[i]).key != (#[trigger] nodes[j]).key,
    ensures
        forall|k: int|
            0 <= k < filter_nodes(nodes, edges0, owner).len() ==> nodes.contains(
                #[trigger] filter_nodes(nodes, edges0, owner)[k],
            ) && !node_removed(edges0, owner, filter_nodes(nodes, edges0, owner)[k].nid),
        forall|x: NodeV|
            nodes.contains(x) && !node_removed(edges0, owner, x.nid) ==> filter_nodes(
                nodes,
                edges0,
                owner,
            ).contains(x),
        forall|k: int, l: int|
            0 <= k < l < filter_nodes(nodes, edges0, owner).len() ==> (#[trigger] filter_nodes(
                nodes,
                edges0,
                owner,
            )[k]).nid != (#[trigger] filter_nodes(nodes, edges0, owner)[l]).nid,
        forall|k: int, l: int|
            0 <= k < l < filter_nodes(nodes, edges0, owner).len() ==> (#[trigger] filter_nodes(
                nodes,
                edges0,
                owner,
            )[k]).key != (#[trigger] filter_nodes(nodes, edges0, owner)[l]).key,
    decreases nodes.len(),
{
    if nodes.len() > 0 {
        let rest = nodes.drop_first();
        assert(forall|i: int| 0 <= i < rest.len() ==> (#[trigger] rest[i]) == nodes[i + 1]);
        lemma_filter_nodes_wf(rest, edges0, owner);
        let f = filter_nodes(nodes, edges0, owner);
        let fr = filter_nodes(rest, edges0, owner);
        assert forall|k: int| 0 <= k < f.len() implies nodes.contains(#[trigger] f[k])
            && !node_removed(edges0, owner, f[k].nid) by {
            if node_removed(edges0, owner, nodes[0].nid) {
                assert(f[k] == fr[k]);
                let l = choose|l: int| 0 <= l < rest.len() && rest[l] == fr[k];
                assert(nodes[l + 1] == f[k]);
            } else {
                if k == 0 {
                    assert(f[0] == nodes[0]);
                } else {
                    assert(f[k] == fr[k - 1]);
                    let l = choose|l: int| 0 <= l < rest.len() && rest[l] == fr[k - 1];
                    assert(nodes[l + 1] == f[k]);
                }
            }
        }
        assert forall|x: NodeV|
            nodes.contains(x) && !node_removed(edges0, owner, x.nid) implies f.contains(x) by {
            let l = choose|l: int| 0 <= l < nodes.len() && nodes[l] == x;
            if l == 0 {
                assert(f[0] == x);
            } else {
                assert(rest[l - 1] == x);
                assert(rest.contains(x));
                assert(fr.contains(x));
                let k = choose|k: int| 0 <= k < fr.len() && fr[k] == x;
                if node_removed(edges0, owner, nodes[0].nid) {
                    assert(f[k] == x);
                } else {
                    assert(f[k + 1] == x);
                }
            }
        }
        assert forall|k: int, l: int| 0 <= k < l < f.len() implies (#[trigger] f[k]).nid != (
        #[trigger] f[l]).nid by {
            if !node_removed(edges0, owner, nodes[0].nid) && k == 0 {
                assert(f[l] == fr[l - 1]);
                assert(rest.contains(fr[l - 1]) || nodes.contains(fr[l - 1]));
                let m = choose|m: int| 0 <= m < rest.len() && rest[m] == fr[l - 1];
                assert(nodes[0].nid != nodes[m + 1].nid);
            } else if node_removed(edges0, owner, nodes[0].nid) {
                assert(f[k] == fr[k] && f[l] == fr[l]);
            } else {
                assert(f[k] == fr[k - 1] && f[l] == fr[l - 1]);
            }
        }
        assert forall|k: int, l: int| 0 <= k < l < f.len() implies (#[trigger] f[k]).key != (
        #[trigger] f[l]).key by {
            if !node_removed(edges0, owner, nodes[0].nid) && k == 0 {
                assert(f[l] == fr[l - 1]);
                let m = choose|m: int| 0 <= m < rest.len() && rest[m] == fr[l - 1];
                assert(nodes[0].key != nodes[m + 1].key);
            } else if node_removed(edges0, owner, nodes[0].nid) {
                assert(f[k] == fr[k] && f[l] == fr[l]);
            } else {
                assert(f[k] == fr[k - 1] && f[l] == fr[l - 1]);
            }
        }
    }
}

proof fn lemma_filter_edges_wf(edges: Seq<EdgeV>, edges0: Seq<EdgeV>, owner: nat)
    requires
        forall|i: int, j: int|
            0 <= i < j < edges.len() ==> (#[trigger] edges[i]) != (#[trigger] edges[j]),
    ensures
        forall|k: int|
            0 <= k < filter_edges(edges, edges0, owner).len() ==> edges.contains(
                #[trigger] filter_edges(edges, edges0, owner)[k],
            ) && !node_removed(edges0, owner, filter_edges(edges, edges0, owner)[k].from)
                && !node_removed(edges0, owner, filter_edges(edges, edges0, owner)[k].to),
        forall|k: int, l: int|
            0 <= k < l < filter_edges(edges, edges0, owner).len() ==> (#[trigger] filter_edges(
                edges,
                edges0,
                owner,
            )[k]) != (#[trigger] filter_edges(edges, edges0, owner)[l]),
    decreases edges.len(),
{
    if edges.len() > 0 {
        let rest = edges.drop_first();
        assert(forall|i: int| 0 <= i < rest.len() ==> (#[trigger] rest[i]) == edges[i + 1]);
        lemma_filter_edges_wf(rest, edges0, owner);
        let f = filter_edges(edges, edges0, owner);
        let fr = filter_edges(rest, edges0, owner);
        let drop0 = node_removed(edges0, owner, edges[0].from) || node_removed(
            edges0,
            owner,
            edges[0].to,
        );
        assert forall|k: int| 0 <= k < f.len() implies edges.contains(#[trigger] f[k])
            && !node_removed(edges0, owner, f[k].from) && !node_removed(edges0, owner, f[k].to) by {
            if drop0 {
                assert(f[k] == fr[k]);
                let l = choose|l: int| 0 <= l < rest.len() && rest[l] == fr[k];
                assert(edges[l + 1] == f[k]);
            } else if k == 0 {
                assert(f[0] == edges[0]);
            } else {
                assert(f[k] == fr[k - 1]);
                let l = choose|l: int| 0 <= l < rest.len() && rest[l] == fr[k - 1];
                assert(edges[l + 1] == f[k]);
            }
        }
        assert forall|k: int, l: int| 0 <= k < l < f.len() implies (#[trigger] f[k]) != (
        #[trigger] f[l]) by {
            if !drop0 && k == 0 {
                assert(f[l] == fr[l - 1]);
                let m = choose|m: int| 0 <= m < rest.len() && rest[m] == fr[l - 1];
                assert(edges[0] != edges[m + 1]);
            } else if drop0 {
                assert(f[k] == fr[k] && f[l] == fr[l]);
            } else {
                assert(f[k] == fr[k - 1] && f[l] == fr[l - 1]);
            }
        }
    }
}

/// Deleting a file keeps every node it does not structurally contain:
/// anything other than the file node and its contained entities survives
/// with all its fields.
pub proof fn lemma_remove_keeps_unrelated(s: StoreV, path: Seq<char>, x: NodeV)
    requires
        forall|i: int, j: int|
            0 <= i < j < s.nodes.len() ==> (#[trigger] s.nodes[i]).nid != (
            #[trigger] s.nodes[j]).nid,
        forall|i: int, j: int|
            0 <= i < j < s.nodes.len() ==> (#[trigger] s.nodes[i]).key != (
            #[trigger] s.nodes[j]).key,
        s.nodes.contains(x),
        find_file(s.nodes, path) >= 0 ==> !node_removed(
            s.edges,
            s.nodes[find_file(s.nodes, path)].nid,
            x.nid,
        ),
    ensures
        spec_apply(s, GraphOpView::RemoveFileNodeV { path }).nodes.contains(x),
{
    lemma_find_file_props(s.nodes, path);
    if find_file(s.nodes, path) >= 0 {
        lemma_filter_nodes_wf(s.nodes, s.edges, s.nodes[find_file(s.nodes, path)].nid);
    }
}

/// Every operation keeps the store structurally sound.
pub proof fn lemma_apply_preserves_wf(s: StoreV, op: GraphOpView)
    requires
        wf_store(s),
    ensures
        wf_store(spec_apply(s, op)),
{
    let s2 = spec_apply(s, op);
    match op {
        GraphOpView::MergeNodeV { key, .. } => {
            lemma_find_key_props(s.nodes, key);
            let i = find_key(s.nodes, key);
            if i >= 0 {
                assert forall|a: int|
                    0 <= a < s2.edges.len() implies nid_present(s2.nodes, (
                #[trigger] s2.edges[a]).from) && nid_present(s2.nodes, s2.edges[a].to) by {
                    let w1 = choose|w: int|
                        0 <= w < s.nodes.len() && (#[trigger] s.nodes[w]).nid == s.edges[a].from;
                    assert(s2.nodes[w1].nid == s.edges[a].from);
                    let w2 = choose|w: int|
                        0 <= w < s.nodes.len() && (#[trigger] s.nodes[w]).nid == s.edges[a].to;
                    assert(s2.nodes[w2].nid == s.edges[a].to);
                }
            } else {
                assert forall|a: int|
                    0 <= a < s2.edges.len() implies nid_present(s2.nodes, (
                #[trigger] s2.edges[a]).from) && nid_present(s2.nodes, s2.edges[a].to) by {
                    let w1 = choose|w: int|
                        0 <= w < s.nodes.len() && (#[trigger] s.nodes[w]).nid == s.edges[a].from;
                    assert(s2.nodes[w1].nid == s.edges[a].from);
                    let w2 = choose|w: int|
                        0 <= w < s.nodes.len() && (#[trigger] s.nodes[w]).nid == s.edges[a].to;
                    assert(s2.nodes[w2].nid == s.edges[a].to);
                }
            }
        },
        GraphOpView::MergeEdgeV { from_key, to_key, rel } => {
            lemma_find_key_props(s.nodes, from_key);
            lemma_find_key_props(s.nodes, to_key);
            let i = find_key(s.nodes, from_key);
            let j = find_key(s.nodes, to_key);
            if i >= 0 && j >= 0 {
                let e = EdgeV { from: s.nodes[i].nid, to: s.nodes[j].nid, rel };
                if !s.edges.contains(e) {
                    assert forall|a: int, b: int|
                        0 <= a < b < s2.edges.len() implies (#[trigger] s2.edges[a]) != (
                    #[trigger] s2.edges[b]) by {
                        if b == s2.edges.len() - 1 {
                            assert(s2.edges[b] == e);
                            if s2.edges[a] == e {
                                assert(s.edges[a] == e);
                            }
                        }
                    }
                    assert(nid_present(s2.nodes, e.from));
                    assert(nid_present(s2.nodes, e.to));
                }
            }
        },
        GraphOpView::RenameNodeV { from_path, to_path, .. } => {
            lemma_find_file_props(s.nodes, from_path);
            lemma_find_key_props(s.nodes, to_path);
            let i = find_file(s.nodes, from_path);
            if i >= 0 && (from_path == to_path || !has_key(s.nodes, to_path)) {
                assert forall|a: int, b: int|
                    0 <= a < b < s2.nodes.len() implies (#[trigger] s2.nodes[a]).key != (
                #[trigger] s2.nodes[b]).key by {
                    if a != i && b != i {
                        assert(s2.nodes[a] == s.nodes[a] && s2.nodes[b] == s.nodes[b]);
                    }
                }
                assert forall|a: int|
                    0 <= a < s2.edges.len() implies nid_present(s2.nodes, (
                #[trigger] s2.edges[a]).from) && nid_present(s2.nodes, s2.edges[a].to) by {
                    let w1 = choose|w: int|
                        0 <= w < s.nodes.len() && (#[trigger] s.nodes[w]).nid == s.edges[a].from;
                    assert(s2.nodes[w1].nid == s.edges[a].from);
                    let w2 = choose|w: int|
                        0 <= w < s.nodes.len() && (#[trigger] s.nodes[w]).nid == s.edges[a].to;
                    assert(s2.nodes[w2].nid == s.edges[a].to);
                }
            }
        },
        GraphOpView::RemoveFileNodeV { path } => {
            lemma_find_file_props(s.nodes, path);
            let i = find_file(s.nodes, path);
            if i >= 0 {
                let owner = s.nodes[i].nid;
                lemma_filter_nodes_wf(s.nodes, s.edges, owner);
                lemma_filter_edges_wf(s.edges, s.edges, owner);
                assert forall|a: int|
                    0 <= a < s2.nodes.len() implies (#[trigger] s2.nodes[a]).nid < s2.next_nid by {
                    let l = choose|l: int| 0 <= l < s.nodes.len() && s.nodes[l] == s2.nodes[a];
                    assert(s.nodes[l].nid < s.next_nid);
                }
                assert forall|a: int|
                    0 <= a < s2.edges.len() implies nid_present(s2.nodes, (
                #[trigger] s2.edges[a]).from) && nid_present(s2.nodes, s2.edges[a].to) by {
                    assert(s.edges.contains(s2.edges[a]));
                    let ei = choose|ei: int| 0 <= ei < s.edges.len() && s.edges[ei] == s2.edges[a];
                    let w1 = choose|w: int|
                        0 <= w < s.nodes.len() && (#[trigger] s.nodes[w]).nid == s.edges[ei].from;
                    assert(s.nodes.contains(s.nodes[w1]));
                    assert(!node_removed(s.edges, owner, s2.edges[a].from));
                    assert(s2.nodes.contains(s.nodes[w1]));
                    let k1 = choose|k: int| 0 <= k < s2.nodes.len() && s2.nodes[k] == s.nodes[w1];
                    assert(s2.nodes[k1].nid == s2.edges[a].from);
                    let w2 = choose|w: int|
                        0 <= w < s.nodes.len() && (#[trigger] s.nodes[w]).nid == s.edges[ei].to;
                    assert(s.nodes.contains(s.nodes[w2]));
                    assert(!node_removed(s.edges, owner, s2.edges[a].to));
                    assert(s2.nodes.contains(s.nodes[w2]));
                    let k2 = choose|k: int| 0 <= k < s2.nodes.len() && s2.nodes[k] == s.nodes[w2];
                    assert(s2.nodes[k2].nid == s2.edges[a].to);
                }
            }
        },
        _ => {},
    }
}

proof fn lemma_batch_plan_nodes_all(ss: Seq<FileStructure>)
    ensures
        all_merge_nodes(spec_batch_plan_nodes(ss)),
    decreases ss.len(),
{
    if ss.len() > 0 {
        lemma_file_plan_shape(ss[0]);
        lemma_batch_plan_nodes_all(ss.drop_first());
        lemma_all_nodes_concat(
            spec_file_plan_nodes(ss[0]),
            spec_batch_plan_nodes(ss.drop_first()),
        );
    }
}

proof fn lemma_batch_plan_links_all(ss: Seq<FileStructure>)
    ensures
        all_merge_edges(spec_batch_plan_links(ss)),
    decreases ss.len(),
{
    if ss.len() > 0 {
        lemma_file_plan_shape(ss[0]);
        lemma_batch_plan_links_all(ss.drop_first());
        lemma_all_edges_concat(
            spec_file_plan_links(ss[0]),
            spec_batch_plan_links(ss.drop_first()),
        );
    }
}

/// Idempotent batch ingestion: replaying a whole batch's plan — every
/// file's nodes before any file's edges — against the store it produced
/// changes neither the node count nor the edges, however many files the
/// batch holds and however their imports cross.
pub proof fn lemma_reingest_batch_no_net_change(s: StoreV, ss: Seq<FileStructure>)
    ensures
        ({
            let s1 = spec_apply_ops(s, spec_batch_plan(ss));
            let s2 = spec_apply_ops(s1, spec_batch_plan(ss));
            s2.nodes.len() == s1.nodes.len() && s2.edges == s1.edges
        }),
{
    lemma_batch_plan_nodes_all(ss);
    lemma_batch_plan_links_all(ss);
    lemma_replay_plan_no_net_change(s, spec_batch_plan_nodes(ss), spec_batch_plan_links(ss));
}

} // verus!
