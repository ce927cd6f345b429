//! The graph core: labeled nodes, directed labeled bonds, an id-to-slot
//! index, and the queries over them.

use std::collections::BTreeMap;
use std::collections::HashSet;
use vstd::prelude::*;

use crate::ident::fresh_id;
use crate::ident::SENTINEL_ID;
use crate::text::blank;
use crate::text::contains_string;
use crate::text::intersects;
use crate::text::is_blank;
use crate::text::labels_intersect;
use crate::text::string_views;

verus! {

broadcast use vstd::std_specs::btree::group_btree_axioms, vstd::laws_cmp::group_laws_cmp, vstd::std_specs::hash::group_hash_axioms;

/// Main node (vertex) collection element.
pub struct Node {
    pub id: u128,
    pub labels: Vec<String>,
}

/// Main bond (relation) collection element.
pub struct Bond {
    pub id: u128,
    pub label: String,
    pub src: u128,
    pub dst: u128,
}

/// Restricts traversal to bonds where the queried node is the source, the
/// destination, or either.
#[derive(PartialEq, Eq, Structural, Clone, Copy, Debug)]
pub enum BondDirection {
    Outgoing,
    Ingoing,
    Both,
}

/// The validation and lookup failures of the graph core.
#[derive(PartialEq, Eq, Structural, Clone, Copy, Debug)]
pub enum GraphError {
    /// Blank node primary label or blank bond label.
    InvalidLabel,
    /// Caller-supplied node id already present in the index.
    DuplicateIdentifier,
    /// Bond references the sentinel identifier as an endpoint.
    InvalidEndpoint,
    /// Bond endpoint does not resolve to an existing node.
    DanglingReference,
    /// Traversal requested from a node id absent from the index.
    UnknownNode,
    /// Requested graph name already exists in the collection.
    DuplicateGraphName,
}

/// No two slots of the sequence hold nodes with the same identifier.
pub open spec fn unique_node_ids(nodes: Seq<Node>) -> bool {
    forall|i: int, j: int|
        0 <= i < nodes.len() && 0 <= j < nodes.len() && i != j ==> (#[trigger] nodes[i]).id != (
        #[trigger] nodes[j]).id
}

/// The label list of a node is acceptable when it is non-empty and its
/// first entry is not blank.
pub open spec fn valid_node_labels(labels: Seq<String>) -> bool {
    labels.len() > 0 && !blank(labels[0]@)
}

/// The identifiers of a node sequence, in slot order.
pub open spec fn node_ids(nodes: Seq<Node>) -> Seq<u128> {
    nodes.map_values(|n: Node| n.id)
}

/// Whether some node in the sequence carries the identifier.
pub open spec fn has_node_with_id(nodes: Seq<Node>, id: u128) -> bool {
    exists|i: int| 0 <= i < nodes.len() && nodes[i].id == id
}

/// The slot of the node carrying the identifier (meaningful when
/// `has_node_with_id` holds and identifiers are unique).
pub open spec fn node_slot(nodes: Seq<Node>, id: u128) -> int {
    choose|i: int| 0 <= i < nodes.len() && nodes[i].id == id
}

/// The node carrying the identifier.
pub open spec fn node_with_id(nodes: Seq<Node>, id: u128) -> Node {
    nodes[node_slot(nodes, id)]
}

/// With unique identifiers, the slot of an identifier is the one slot whose
/// node carries it.
pub proof fn lemma_node_slot(nodes: Seq<Node>, id: u128, s: int)
    requires
        unique_node_ids(nodes),
        0 <= s < nodes.len(),
        nodes[s].id == id,
    ensures
        node_slot(nodes, id) == s,
        node_with_id(nodes, id) == nodes[s],
{
    let c = node_slot(nodes, id);
    assert(0 <= c < nodes.len() && nodes[c].id == id);
    if c != s {
        assert(nodes[c].id != nodes[s].id);
    }
}

/// Whether a bond passes the bond-label filter: an empty filter admits
/// every bond.
pub open spec fn bond_label_match(b: Bond, bond_labels: Seq<Seq<char>>) -> bool {
    bond_labels.len() == 0 || bond_labels.contains(b.label@)
}

/// Whether a candidate neighbor passes the node-label filter: an empty
/// filter admits every node, otherwise the node must share at least one
/// label with the filter.
pub open spec fn node_label_match(n: Node, node_labels: Seq<Seq<char>>) -> bool {
    node_labels.len() == 0 || intersects(string_views(n.labels@), node_labels)
}

/// The neighbors contributed by one traversal pass, in bond order: every
/// bond whose relevant endpoint is `node_id` and whose label passes the
/// filter contributes the node at its other endpoint, kept when that node
/// passes the node-label filter. A node reached through several bonds
/// appears once per contributing bond.
pub open spec fn neighbors_via(
    bonds: Seq<Bond>,
    nodes: Seq<Node>,
    node_id: u128,
    bond_labels: Seq<Seq<char>>,
    node_labels: Seq<Seq<char>>,
    outgoing: bool,
) -> Seq<Node>
    decreases bonds.len(),
{
    if bonds.len() == 0 {
        Seq::empty()
    } else {
        let prefix = neighbors_via(
            bonds.drop_last(),
            nodes,
            node_id,
            bond_labels,
            node_labels,
            outgoing,
        );
        let b = bonds.last();
        let endpoint = if outgoing {
            b.src
        } else {
            b.dst
        };
        if endpoint == node_id && bond_label_match(b, bond_labels) {
            let other = node_with_id(
                nodes,
                if outgoing {
                    b.dst
                } else {
                    b.src
                },
            );
            if node_label_match(other, node_labels) {
                prefix.push(other)
            } else {
                prefix
            }
        } else {
            prefix
        }
    }
}

/// The full traversal result: the queried node itself, then the outgoing
/// pass (unless the direction is ingoing-only), then the ingoing pass
/// (unless the direction is outgoing-only).
pub open spec fn connected_nodes(
    g: InMemoryGraph,
    node_id: u128,
    bond_labels: Seq<Seq<char>>,
    node_labels: Seq<Seq<char>>,
    direction: BondDirection,
) -> Seq<Node> {
    let cur = seq![node_with_id(g.nodes_collection@, node_id)];
    let out_part = if direction is Ingoing {
        Seq::<Node>::empty()
    } else {
        neighbors_via(g.bonds_collection@, g.nodes_collection@, node_id, bond_labels, node_labels, true)
    };
    let in_part = if direction is Outgoing {
        Seq::<Node>::empty()
    } else {
        neighbors_via(g.bonds_collection@, g.nodes_collection@, node_id, bond_labels, node_labels, false)
    };
    cur + out_part + in_part
}

/// The node values behind a sequence of node references.
pub open spec fn deref_nodes(s: Seq<&Node>) -> Seq<Node> {
    s.map_values(|n: &Node| *n)
}

/// The distinct stored nodes whose ids appear in `ids`, in order of first
/// occurrence in `ids`; ids that no stored node carries are skipped, and a
/// repeated id contributes its node only once.
pub open spec fn nodes_by_ids(nodes: Seq<Node>, ids: Seq<u128>) -> Seq<Node>
    decreases ids.len(),
{
    if ids.len() == 0 {
        Seq::empty()
    } else {
        let prefix = nodes_by_ids(nodes, ids.drop_last());
        let id = ids.last();
        if has_node_with_id(nodes, id) && !node_ids(prefix).contains(id) {
            prefix.push(node_with_id(nodes, id))
        } else {
            prefix
        }
    }
}

/// One scan of the node records for one label: every node carrying the
/// label is appended to `acc` in slot order, unless a node with its id was
/// collected already.
pub open spec fn scan_label(nodes: Seq<Node>, label: Seq<char>, acc: Seq<Node>) -> Seq<Node>
    decreases nodes.len(),
{
    if nodes.len() == 0 {
        acc
    } else {
        let n = nodes.first();
        let acc2 = if string_views(n.labels@).contains(label) && !node_ids(acc).contains(n.id) {
            acc.push(n)
        } else {
            acc
        };
        scan_label(nodes.drop_first(), label, acc2)
    }
}

/// The nodes carrying any of the requested labels: one full scan of the
/// records per label, in label order, deduplicated by id across the whole
/// query.
pub open spec fn nodes_by_labels_from(
    nodes: Seq<Node>,
    labels: Seq<Seq<char>>,
    acc: Seq<Node>,
) -> Seq<Node>
    decreases labels.len(),
{
    if labels.len() == 0 {
        acc
    } else {
        nodes_by_labels_from(nodes, labels.drop_first(), scan_label(nodes, labels.first(), acc))
    }
}

/// The result of a label-list query, starting from nothing collected.
pub open spec fn nodes_by_labels(nodes: Seq<Node>, labels: Seq<Seq<char>>) -> Seq<Node> {
    nodes_by_labels_from(nodes, labels, Seq::empty())
}

/// Main graph model: append-only node and bond records plus an index from
/// identifier to slot for each.
pub struct InMemoryGraph {
    pub name: String,
    pub nodes_collection: Vec<Node>,
    pub bonds_collection: Vec<Bond>,
    pub nodes_id_index: BTreeMap<u128, usize>,
    pub bonds_id_index: BTreeMap<u128, usize>,
}

impl InMemoryGraph {
    /// The structural invariants of a graph: node identifiers are unique,
    /// never the sentinel, and indexed at their slot; labels are
    /// acceptable; every bond endpoint resolves to a stored node; and the
    /// bond index is consistent with the bond records.
    pub open spec fn wf(&self) -> bool {
        let nodes = self.nodes_collection@;
        let bonds = self.bonds_collection@;
        &&& unique_node_ids(nodes)
        &&& forall|i: int| 0 <= i < nodes.len() ==> (#[trigger] nodes[i]).id != SENTINEL_ID
        &&& forall|i: int|
            0 <= i < nodes.len() ==> valid_node_labels((#[trigger] nodes[i]).labels@)
        &&& forall|i: int|
            0 <= i < nodes.len() ==> self.nodes_id_index@.contains_key((#[trigger] nodes[i]).id)
                && self.nodes_id_index@[nodes[i].id] == i as usize
        &&& forall|id: u128|
            self.nodes_id_index@.contains_key(id) ==> {
                let s = #[trigger] self.nodes_id_index@[id];
                s < nodes.len() && nodes[s as int].id == id
            }
        &&& forall|k: int|
            0 <= k < bonds.len() ==> {
                let b = #[trigger] bonds[k];
                &&& !blank(b.label@)
                &&& b.id != SENTINEL_ID
                &&& b.src != SENTINEL_ID
                &&& b.dst != SENTINEL_ID
                &&& has_node_with_id(nodes, b.src)
                &&& has_node_with_id(nodes, b.dst)
            }
        &&& forall|k: int|
            0 <= k < bonds.len() ==> self.bonds_id_index@.contains_key((#[trigger] bonds[k]).id)
        &&& forall|id: u128|
            self.bonds_id_index@.contains_key(id) ==> {
                let s = #[trigger] self.bonds_id_index@[id];
                s < bonds.len() && bonds[s as int].id == id
            }
    }

    /// Creates a new empty graph under the given name.
    pub fn new_graph(name: String) -> (g: InMemoryGraph)
        ensures
            g.wf(),
            g.name@ == name@,
            g.nodes_collection@.len() == 0,
            g.bonds_collection@.len() == 0,
            g.nodes_id_index@ == Map::<u128, usize>::empty(),
            g.bonds_id_index@ == Map::<u128, usize>::empty(),
    {
        InMemoryGraph {
            name,
            nodes_collection: Vec::new(),
            bonds_collection: Vec::new(),
            nodes_id_index: BTreeMap::new(),
            bonds_id_index: BTreeMap::new(),
        }
    }

    /// Adds a node to the graph. A node whose id is the sentinel receives a
    /// freshly allocated id; a caller-supplied id is used as-is after a
    /// uniqueness check. On success the record is appended at the slot equal
    /// to the previous node count and indexed there.
    pub fn add_node(&mut self, node: Node) -> (r: Result<(), GraphError>)
        requires
            old(self).wf(),
        ensures
            final(self).wf(),
            final(self).name@ == old(self).name@,
            final(self).bonds_collection@ == old(self).bonds_collection@,
            final(self).bonds_id_index@ == old(self).bonds_id_index@,
            r == Err::<(), GraphError>(GraphError::InvalidLabel) <==> !valid_node_labels(
                node.labels@,
            ),
            valid_node_labels(node.labels@) && node.id != SENTINEL_ID ==> (r.is_ok()
                <==> !has_node_with_id(old(self).nodes_collection@, node.id)),
            match r {
                Ok(_) => {
                    let n = final(self).nodes_collection@.last();
                    &&& valid_node_labels(node.labels@)
                    &&& final(self).nodes_collection@ == old(self).nodes_collection@.push(n)
                    &&& n.labels == node.labels
                    &&& n.id != SENTINEL_ID
                    &&& !has_node_with_id(old(self).nodes_collection@, n.id)
                    &&& (node.id != SENTINEL_ID ==> n.id == node.id)
                    &&& final(self).nodes_id_index@ == old(self).nodes_id_index@.insert(
                        n.id,
                        old(self).nodes_collection@.len() as usize,
                    )
                },
                Err(GraphError::InvalidLabel) => *final(self) == *old(self),
                Err(GraphError::DuplicateIdentifier) => {
                    &&& *final(self) == *old(self)
                    &&& valid_node_labels(node.labels@)
                    &&& (node.id != SENTINEL_ID ==> has_node_with_id(
                        old(self).nodes_collection@,
                        node.id,
                    ))
                },
                Err(_) => false,
            },
    {
        if node.labels.len() == 0 || is_blank(node.labels[0].as_str()) {
            return Err(GraphError::InvalidLabel);
        }
        let id = if node.id == SENTINEL_ID {
            fresh_id()
        } else {
            node.id
        };
        if self.nodes_id_index.contains_key(&id) {
            proof {
                let s = self.nodes_id_index@[id];
                assert(self.nodes_collection@[s as int].id == id);
            }
            return Err(GraphError::DuplicateIdentifier);
        }
        proof {
            if has_node_with_id(self.nodes_collection@, id) {
                let i = choose|i: int|
                    0 <= i < self.nodes_collection@.len() && self.nodes_collection@[i].id == id;
                assert(self.nodes_id_index@.contains_key(self.nodes_collection@[i].id));
            }
        }
        let len = self.nodes_collection.len();
        self.nodes_id_index.insert(id, len);
        self.nodes_collection.push(Node { id, labels: node.labels });
        proof {
            let nodes = self.nodes_collection@;
            assert forall|k: int| 0 <= k < self.bonds_collection@.len() implies {
                let b = #[trigger] self.bonds_collection@[k];
                has_node_with_id(nodes, b.src) && has_node_with_id(nodes, b.dst)
            } by {
                let b = self.bonds_collection@[k];
                let i = choose|i: int|
                    0 <= i < old(self).nodes_collection@.len() && old(
                        self,
                    ).nodes_collection@[i].id == b.src;
                assert(nodes[i].id == b.src);
                let j = choose|j: int|
                    0 <= j < old(self).nodes_collection@.len() && old(
                        self,
                    ).nodes_collection@[j].id == b.dst;
                assert(nodes[j].id == b.dst);
            }
        }
        Ok(())
    }

    /// Adds a bond to the graph. Both endpoints must be non-sentinel ids of
    /// nodes already present. The bond always receives a freshly allocated
    /// id; any id supplied by the caller is ignored.
    pub fn add_bond(&mut self, bond: Bond) -> (r: Result<(), GraphError>)
        requires
            old(self).wf(),
        ensures
            final(self).wf(),
            final(self).name@ == old(self).name@,
            final(self).nodes_collection@ == old(self).nodes_collection@,
            final(self).nodes_id_index@ == old(self).nodes_id_index@,
            r.is_ok() <==> bond.src != SENTINEL_ID && bond.dst != SENTINEL_ID && !blank(
                bond.label@,
            ) && has_node_with_id(old(self).nodes_collection@, bond.src) && has_node_with_id(
                old(self).nodes_collection@,
                bond.dst,
            ),
            match r {
                Ok(_) => {
                    let b = final(self).bonds_collection@.last();
                    &&& final(self).bonds_collection@ == old(self).bonds_collection@.push(b)
                    &&& b.label == bond.label
                    &&& b.src == bond.src
                    &&& b.dst == bond.dst
                    &&& b.id != SENTINEL_ID
                    &&& final(self).bonds_id_index@ == old(self).bonds_id_index@.insert(
                        b.id,
                        old(self).bonds_collection@.len() as usize,
                    )
                },
                Err(GraphError::InvalidEndpoint) => {
                    &&& *final(self) == *old(self)
                    &&& (bond.src == SENTINEL_ID || bond.dst == SENTINEL_ID)
                },
                Err(GraphError::InvalidLabel) => {
                    &&& *final(self) == *old(self)
                    &&& bond.src != SENTINEL_ID
                    &&& bond.dst != SENTINEL_ID
                    &&& blank(bond.label@)
                },
                Err(GraphError::DanglingReference) => {
                    &&& *final(self) == *old(self)
                    &&& bond.src != SENTINEL_ID
                    &&& bond.dst != SENTINEL_ID
                    &&& !blank(bond.label@)
                    &&& (!has_node_with_id(old(self).nodes_collection@, bond.src)
                        || !has_node_with_id(old(self).nodes_collection@, bond.dst))
                },
                Err(_) => false,
            },
    {
        if bond.src == SENTINEL_ID || bond.dst == SENTINEL_ID {
            return Err(GraphError::InvalidEndpoint);
        }
        if is_blank(bond.label.as_str()) {
            return Err(GraphError::InvalidLabel);
        }
        let is_src_exists = self.contains_node_id(bond.src);
        let is_dst_exists = self.contains_node_id(bond.dst);
        if !is_src_exists || !is_dst_exists {
            return Err(GraphError::DanglingReference);
        }
        let id = fresh_id();
        let len = self.bonds_collection.len();
        self.bonds_id_index.insert(id, len);
        self.bonds_collection.push(
            Bond { id, label: bond.label, src: bond.src, dst: bond.dst },
        );
        proof {
            let bonds = self.bonds_collection@;
            assert forall|k: int|
                0 <= k < bonds.len() implies self.bonds_id_index@.contains_key(
                (#[trigger] bonds[k]).id,
            ) by {
                if k < bonds.len() - 1 {
                    assert(old(self).bonds_id_index@.contains_key(
                        old(self).bonds_collection@[k].id,
                    ));
                }
            }
        }
        Ok(())
    }

    /// Whether the node index holds the given identifier; under the graph
    /// invariant this is exactly whether a stored node carries it.
    pub fn contains_node_id(&self, id: u128) -> (r: bool)
        requires
            self.wf(),
        ensures
            r == has_node_with_id(self.nodes_collection@, id),
    {
        let r = self.nodes_id_index.contains_key(&id);
        proof {
            if r {
                let s = self.nodes_id_index@[id];
                assert(self.nodes_collection@[s as int].id == id);
            }
            if has_node_with_id(self.nodes_collection@, id) {
                let i = choose|i: int|
                    0 <= i < self.nodes_collection@.len() && self.nodes_collection@[i].id == id;
                assert(self.nodes_id_index@.contains_key(self.nodes_collection@[i].id));
            }
        }
        r
    }

    /// One traversal pass: appends to `nodes_refs` the neighbors reached
    /// over bonds whose source (when `outgoing`) or destination (otherwise)
    /// is `node_id`, filtered by bond and node labels, in bond order.
    fn collect_neighbors<'a>(
        &'a self,
        node_id: u128,
        bond_types: &Vec<String>,
        node_labels: &Vec<String>,
        outgoing: bool,
        nodes_refs: &mut Vec<&'a Node>,
    )
        requires
            self.wf(),
        ensures
            deref_nodes(final(nodes_refs)@) == deref_nodes(old(nodes_refs)@) + neighbors_via(
                self.bonds_collection@,
                self.nodes_collection@,
                node_id,
                string_views(bond_types@),
                string_views(node_labels@),
                outgoing,
            ),
    {
        let ghost base = nodes_refs@;
        let ghost bonds = self.bonds_collection@;
        let ghost nodes = self.nodes_collection@;
        let ghost bls = string_views(bond_types@);
        let ghost nls = string_views(node_labels@);
        let n = self.bonds_collection.len();
        let mut k: usize = 0;
        proof {
            assert(bonds.take(0) =~= Seq::<Bond>::empty());
            assert(deref_nodes(base) + neighbors_via(bonds.take(0), nodes, node_id, bls, nls, outgoing)
                =~= deref_nodes(base));
        }
        while k < n
            invariant
                self.wf(),
                k <= n,
                n == bonds.len(),
                bonds == self.bonds_collection@,
                nodes == self.nodes_collection@,
                bls == string_views(bond_types@),
                nls == string_views(node_labels@),
                deref_nodes(nodes_refs@) == deref_nodes(base) + neighbors_via(
                    bonds.take(k as int),
                    nodes,
                    node_id,
                    bls,
                    nls,
                    outgoing,
                ),
            decreases n - k,
        {
            let ghost entry_refs = nodes_refs@;
            let ghost prefix = neighbors_via(bonds.take(k as int), nodes, node_id, bls, nls, outgoing);
            let b = &self.bonds_collection[k];
            let endpoint = if outgoing {
                b.src
            } else {
                b.dst
            };
            if endpoint == node_id && (bond_types.len() == 0 || contains_string(
                bond_types,
                &b.label,
            )) {
                let other_id = if outgoing {
                    b.dst
                } else {
                    b.src
                };
                proof {
                    assert(has_node_with_id(nodes, other_id));
                    let i = choose|i: int| 0 <= i < nodes.len() && nodes[i].id == other_id;
                    assert(self.nodes_id_index@.contains_key(nodes[i].id));
                }
                let slot = match self.nodes_id_index.get(&other_id) {
                    Some(s) => *s,
                    None => {
                        proof {
                            assert(false);
                        }
                        0
                    },
                };
                proof {
                    lemma_node_slot(nodes, other_id, slot as int);
                }
                let other = &self.nodes_collection[slot];
                assert(*other == node_with_id(nodes, other_id));
                if node_labels.len() == 0 {
                    nodes_refs.push(other);
                    assert(nodes_refs@ == entry_refs.push(other));
                    assert(deref_nodes(nodes_refs@) =~= deref_nodes(entry_refs).push(*other));
                } else if labels_intersect(&other.labels, node_labels) {
                    nodes_refs.push(other);
                    assert(nodes_refs@ == entry_refs.push(other));
                    assert(deref_nodes(nodes_refs@) =~= deref_nodes(entry_refs).push(*other));
                }
            }
            proof {
                let taken = bonds.take(k as int + 1);
                assert(taken.drop_last() =~= bonds.take(k as int));
                assert(taken.last() == bonds[k as int]);
                let prefix = neighbors_via(bonds.take(k as int), nodes, node_id, bls, nls, outgoing);
                let step = neighbors_via(taken, nodes, node_id, bls, nls, outgoing);
                let b_spec = bonds[k as int];
                let endpoint_spec = if outgoing {
                    b_spec.src
                } else {
                    b_spec.dst
                };
                if endpoint_spec == node_id && bond_label_match(b_spec, bls) {
                    let other_spec = node_with_id(
                        nodes,
                        if outgoing {
                            b_spec.dst
                        } else {
                            b_spec.src
                        },
                    );
                    if node_label_match(other_spec, nls) {
                        assert(step == prefix.push(other_spec));
                    } else {
                        assert(step == prefix);
                    }
                } else {
                    assert(step == prefix);
                }
                assert(deref_nodes(nodes_refs@) =~= deref_nodes(base) + step);
            }
            k = k + 1;
        }
        proof {
            assert(bonds.take(n as int) =~= bonds);
        }
    }

    /// Returns the neighborhood of `node_id`, the node itself included,
    /// restricted by direction and by the bond-label and node-label
    /// filters (an empty filter means no restriction). The result holds
    /// read-only views of the stored records.
    pub fn get_connected_nodes<'a>(
        &'a self,
        node_id: u128,
        bond_types: Vec<String>,
        node_labels: Vec<String>,
        direction: BondDirection,
    ) -> (r: Result<Vec<&'a Node>, GraphError>)
        requires
            self.wf(),
        ensures
            r.is_ok() <==> has_node_with_id(self.nodes_collection@, node_id),
            match r {
                Ok(v) => deref_nodes(v@) == connected_nodes(
                    *self,
                    node_id,
                    string_views(bond_types@),
                    string_views(node_labels@),
                    direction,
                ),
                Err(e) => e == GraphError::UnknownNode,
            },
    {
        let ghost nodes = self.nodes_collection@;
        let node_index = match self.nodes_id_index.get(&node_id) {
            Some(s) => *s,
            None => {
                proof {
                    if has_node_with_id(nodes, node_id) {
                        let i = choose|i: int| 0 <= i < nodes.len() && nodes[i].id == node_id;
                        assert(self.nodes_id_index@.contains_key(nodes[i].id));
                    }
                }
                return Err(GraphError::UnknownNode);
            },
        };
        proof {
            lemma_node_slot(nodes, node_id, node_index as int);
        }
        let mut nodes_refs: Vec<&Node> = Vec::new();
        nodes_refs.push(&self.nodes_collection[node_index]);
        proof {
            assert(deref_nodes(nodes_refs@) =~= seq![node_with_id(nodes, node_id)]);
        }
        if !(direction == BondDirection::Ingoing) {
            self.collect_neighbors(node_id, &bond_types, &node_labels, true, &mut nodes_refs);
        }
        if !(direction == BondDirection::Outgoing) {
            self.collect_neighbors(node_id, &bond_types, &node_labels, false, &mut nodes_refs);
        }
        proof {
            assert(deref_nodes(nodes_refs@) =~= connected_nodes(
                *self,
                node_id,
                string_views(bond_types@),
                string_views(node_labels@),
                direction,
            ));
        }
        Ok(nodes_refs)
    }

    /// Returns, in order of first occurrence in `uuid_list`, the distinct
    /// stored nodes whose id appears in the list. Unknown ids are skipped
    /// silently and repeated ids are deduplicated.
    pub fn get_nodes_by_id_list<'a>(&'a self, uuid_list: Vec<u128>) -> (r: Result<
        Vec<&'a Node>,
        GraphError,
    >)
        requires
            self.wf(),
        ensures
            r.is_ok(),
            r matches Ok(v) ==> deref_nodes(v@) == nodes_by_ids(self.nodes_collection@, uuid_list@),
    {
        let ghost nodes = self.nodes_collection@;
        let ghost ids = uuid_list@;
        let mut existing_node_refs: Vec<&Node> = Vec::new();
        let mut existing_uuids_set: HashSet<u128> = HashSet::new();
        let n = uuid_list.len();
        let mut i: usize = 0;
        proof {
            assert(ids.take(0) =~= Seq::<u128>::empty());
            assert(existing_uuids_set@ =~= node_ids(nodes_by_ids(nodes, ids.take(0))).to_set());
        }
        while i < n
            invariant
                self.wf(),
                i <= n,
                n == ids.len(),
                ids == uuid_list@,
                nodes == self.nodes_collection@,
                deref_nodes(existing_node_refs@) == nodes_by_ids(nodes, ids.take(i as int)),
                existing_uuids_set@ == node_ids(nodes_by_ids(nodes, ids.take(i as int))).to_set(),
            decreases n - i,
        {
            let ghost prefix = nodes_by_ids(nodes, ids.take(i as int));
            let ghost entry_refs = existing_node_refs@;
            let id = uuid_list[i];
            match self.nodes_id_index.get(&id) {
                Some(index_ref) => {
                    let slot = *index_ref;
                    proof {
                        lemma_node_slot(nodes, id, slot as int);
                    }
                    if !existing_uuids_set.contains(&self.nodes_collection[slot].id) {
                        let node_ref = &self.nodes_collection[slot];
                        existing_node_refs.push(node_ref);
                        existing_uuids_set.insert(self.nodes_collection[slot].id);
                        proof {
                            assert(deref_nodes(existing_node_refs@) =~= deref_nodes(
                                entry_refs,
                            ).push(nodes[slot as int]));
                            assert(node_ids(prefix.push(nodes[slot as int])) =~= node_ids(
                                prefix,
                            ).push(id));
                            assert(existing_uuids_set@ =~= node_ids(prefix).to_set().insert(id));
                            assert(node_ids(prefix).push(id).to_set() =~= node_ids(
                                prefix,
                            ).to_set().insert(id)) by {
                                broadcast use vstd::seq_lib::lemma_seq_contains_after_push;

                            }
                        }
                    }
                },
                None => {
                    proof {
                        if has_node_with_id(nodes, id) {
                            let w = choose|w: int| 0 <= w < nodes.len() && nodes[w].id == id;
                            assert(self.nodes_id_index@.contains_key(nodes[w].id));
                        }
                    }
                },
            }
            proof {
                assert(ids.take(i as int + 1).drop_last() =~= ids.take(i as int));
                assert(ids.take(i as int + 1).last() == id);
                let step = nodes_by_ids(nodes, ids.take(i as int + 1));
                if has_node_with_id(nodes, id) && !node_ids(prefix).contains(id) {
                    assert(step == prefix.push(node_with_id(nodes, id)));
                } else {
                    assert(step == prefix);
                }
                assert(deref_nodes(existing_node_refs@) =~= step);
                assert(existing_uuids_set@ =~= node_ids(step).to_set());
            }
            i = i + 1;
        }
        proof {
            assert(ids.take(n as int) =~= ids);
        }
        Ok(existing_node_refs)
    }

    /// Returns, for each label of `label_list` in order, the stored nodes
    /// carrying that label, in slot order within each label's scan,
    /// deduplicated by id across the whole call.
    pub fn get_nodes_by_label_list<'a>(&'a self, label_list: Vec<String>) -> (r: Result<
        Vec<&'a Node>,
        GraphError,
    >)
        requires
            self.wf(),
        ensures
            r.is_ok(),
            r matches Ok(v) ==> deref_nodes(v@) == nodes_by_labels(
                self.nodes_collection@,
                string_views(label_list@),
            ),
    {
        let ghost nodes = self.nodes_collection@;
        let ghost lls = string_views(label_list@);
        let mut existing_node_refs: Vec<&Node> = Vec::new();
        let mut existing_uuids_set: HashSet<u128> = HashSet::new();
        let n_labels = label_list.len();
        let mut i: usize = 0;
        proof {
            assert(lls.skip(0) =~= lls);
            assert(deref_nodes(existing_node_refs@) =~= Seq::<Node>::empty());
            assert(existing_uuids_set@ =~= node_ids(deref_nodes(existing_node_refs@)).to_set());
        }
        while i < n_labels
            invariant
                self.wf(),
                i <= n_labels,
                n_labels == lls.len(),
                lls == string_views(label_list@),
                nodes == self.nodes_collection@,
                nodes_by_labels_from(nodes, lls.skip(i as int), deref_nodes(existing_node_refs@))
                    == nodes_by_labels(nodes, lls),
                existing_uuids_set@ == node_ids(deref_nodes(existing_node_refs@)).to_set(),
            decreases n_labels - i,
        {
            let ghost acc_outer = deref_nodes(existing_node_refs@);
            let n_nodes = self.nodes_collection.len();
            let mut j: usize = 0;
            proof {
                assert(nodes.skip(0) =~= nodes);
            }
            while j < n_nodes
                invariant
                    self.wf(),
                    i < n_labels,
                    j <= n_nodes,
                    n_nodes == nodes.len(),
                    n_labels == lls.len(),
                    nodes == self.nodes_collection@,
                    lls == string_views(label_list@),
                    scan_label(
                        nodes.skip(j as int),
                        lls[i as int],
                        deref_nodes(existing_node_refs@),
                    ) == scan_label(nodes, lls[i as int], acc_outer),
                    existing_uuids_set@ == node_ids(deref_nodes(existing_node_refs@)).to_set(),
                decreases n_nodes - j,
            {
                let ghost acc_in = deref_nodes(existing_node_refs@);
                let ghost entry_refs = existing_node_refs@;
                let node_j = &self.nodes_collection[j];
                if contains_string(&node_j.labels, &label_list[i]) && !existing_uuids_set.contains(
                    &node_j.id,
                ) {
                    existing_uuids_set.insert(node_j.id);
                    existing_node_refs.push(node_j);
                    proof {
                        assert(deref_nodes(existing_node_refs@) =~= deref_nodes(entry_refs).push(
                            nodes[j as int],
                        ));
                        assert(node_ids(acc_in.push(nodes[j as int])) =~= node_ids(acc_in).push(
                            nodes[j as int].id,
                        ));
                        assert(node_ids(acc_in).push(nodes[j as int].id).to_set() =~= node_ids(
                            acc_in,
                        ).to_set().insert(nodes[j as int].id)) by {
                            broadcast use vstd::seq_lib::lemma_seq_contains_after_push;

                        }
                        assert(existing_uuids_set@ =~= node_ids(acc_in).to_set().insert(
                            nodes[j as int].id,
                        ));
                    }
                }
                proof {
                    let l = lls[i as int];
                    assert(nodes.skip(j as int).first() == nodes[j as int]);
                    assert(nodes.skip(j as int).drop_first() =~= nodes.skip(j as int + 1));
                    let acc2 = if string_views(nodes[j as int].labels@).contains(l) && !node_ids(
                        acc_in,
                    ).contains(nodes[j as int].id) {
                        acc_in.push(nodes[j as int])
                    } else {
                        acc_in
                    };
                    assert(scan_label(nodes.skip(j as int), l, acc_in) == scan_label(
                        nodes.skip(j as int + 1),
                        l,
                        acc2,
                    ));
                    assert(deref_nodes(existing_node_refs@) =~= acc2);
                }
                j = j + 1;
            }
            proof {
                let l = lls[i as int];
                assert(nodes.skip(n_nodes as int) =~= Seq::<Node>::empty());
                assert(scan_label(Seq::<Node>::empty(), l, deref_nodes(existing_node_refs@))
                    == deref_nodes(existing_node_refs@));
                assert(lls.skip(i as int).first() == l);
                assert(lls.skip(i as int).drop_first() =~= lls.skip(i as int + 1));
                assert(nodes_by_labels_from(nodes, lls.skip(i as int), acc_outer)
                    == nodes_by_labels_from(
                    nodes,
                    lls.skip(i as int + 1),
                    scan_label(nodes, l, acc_outer),
                ));
            }
            i = i + 1;
        }
        proof {
            assert(lls.skip(n_labels as int) =~= Seq::<Seq<char>>::empty());
        }
        Ok(existing_node_refs)
    }

    /// O(1) size accessor for the node records.
    pub fn get_graph_nodes_number(&self) -> (n: usize)
        ensures
            n == self.nodes_collection@.len(),
    {
        self.nodes_collection.len()
    }

    /// O(1) size accessor for the node records.
    pub fn get_nodes_collection_len(&self) -> (n: usize)
        ensures
            n == self.nodes_collection@.len(),
    {
        self.nodes_collection.len()
    }

    /// O(1) size accessor for the bond records.
    pub fn get_bonds_collection_len(&self) -> (n: usize)
        ensures
            n == self.bonds_collection@.len(),
    {
        self.bonds_collection.len()
    }
}

/// Law: in a well-formed graph every stored node identifier differs from
/// the sentinel and from every other stored identifier, so any run of
/// successful insertions leaves pairwise distinct non-sentinel ids.
pub proof fn lemma_stored_ids_distinct(g: InMemoryGraph)
    requires
        g.wf(),
    ensures
        unique_node_ids(g.nodes_collection@),
        forall|i: int|
            0 <= i < g.nodes_collection@.len() ==> (#[trigger] g.nodes_collection@[i]).id
                != SENTINEL_ID,
{
}

/// Transport shape of a create-graph request.
pub struct CreateGraphDTO {
    pub name: String,
}

/// Transport shape of a node in a query response.
pub struct ReturnNodeDTO {
    pub id: u32,
    pub label: String,
    pub bonds: Option<Vec<ReturnBondDTO>>,
}

/// Transport shape of a bond in a query response.
pub struct ReturnBondDTO {
    pub id: u128,
    pub label: String,
    pub src: u128,
    pub dst: u128,
}

/// Owns the named graphs of one process. Callers take shared access for
/// queries and exclusive access for structural changes; a single graph is
/// never mutated without exclusive access to the collection.
pub struct GraphCollectionFacade {
    pub in_memory_graph_collection: Vec<InMemoryGraph>,
}

/// The names of the collected graphs, in insertion order.
pub open spec fn graph_names(gs: Seq<InMemoryGraph>) -> Seq<Seq<char>> {
    gs.map_values(|g: InMemoryGraph| g.name@)
}

/// No two collected graphs share a name.
pub open spec fn unique_graph_names(gs: Seq<InMemoryGraph>) -> bool {
    forall|i: int, j: int|
        0 <= i < gs.len() && 0 <= j < gs.len() && i != j ==> (#[trigger] gs[i]).name@ != (
        #[trigger] gs[j]).name@
}

/// Validates the requested name against every collected graph and returns
/// a new empty graph under it, for the caller to insert while still holding
/// exclusive access.
pub fn validate_and_map_graph(dto: CreateGraphDTO, graph_data: &GraphCollectionFacade) -> (r:
    Result<InMemoryGraph, GraphError>)
    ensures
        r.is_ok() <==> !graph_names(graph_data.in_memory_graph_collection@).contains(dto.name@),
        match r {
            Ok(g) => {
                &&& g.wf()
                &&& g.name@ == dto.name@
                &&& g.nodes_collection@.len() == 0
                &&& g.bonds_collection@.len() == 0
            },
            Err(e) => e == GraphError::DuplicateGraphName,
        },
{
    let ghost gs = graph_data.in_memory_graph_collection@;
    let graphs = &graph_data.in_memory_graph_collection;
    let n = graphs.len();
    let mut i: usize = 0;
    while i < n
        invariant
            i <= n,
            n == gs.len(),
            graphs@ == gs,
            gs == graph_data.in_memory_graph_collection@,
            forall|j: int| 0 <= j < i ==> graph_names(gs)[j] != dto.name@,
        decreases n - i,
    {
        if dto.name == graphs[i].name {
            assert(graph_names(gs)[i as int] == dto.name@);
            assert(graph_names(gs).contains(dto.name@));
            return Err(GraphError::DuplicateGraphName);
        }
        i = i + 1;
    }
    assert(!graph_names(gs).contains(dto.name@)) by {
        if graph_names(gs).contains(dto.name@) {
            let j = choose|j: int| 0 <= j < graph_names(gs).len() && graph_names(gs)[j] == dto.name@;
            assert(graph_names(gs)[j] != dto.name@);
        }
    }
    Ok(InMemoryGraph::new_graph(dto.name))
}

impl GraphCollectionFacade {
    /// Creates and inserts a new empty graph under the name after checking
    /// name uniqueness. Check and insertion happen under one exclusive
    /// borrow of the collection, so no concurrent caller can slip a graph
    /// with the same name in between; name uniqueness is preserved.
    pub fn validate_and_create(&mut self, name: String) -> (r: Result<(), GraphError>)
        ensures
            r.is_ok() <==> !graph_names(old(self).in_memory_graph_collection@).contains(name@),
            unique_graph_names(old(self).in_memory_graph_collection@) ==> unique_graph_names(
                final(self).in_memory_graph_collection@,
            ),
            match r {
                Ok(_) => {
                    let g = final(self).in_memory_graph_collection@.last();
                    &&& final(self).in_memory_graph_collection@ == old(
                        self,
                    ).in_memory_graph_collection@.push(g)
                    &&& g.wf()
                    &&& g.name@ == name@
                    &&& g.nodes_collection@.len() == 0
                    &&& g.bonds_collection@.len() == 0
                },
                Err(e) => {
                    &&& e == GraphError::DuplicateGraphName
                    &&& *final(self) == *old(self)
                },
            },
    {
        let ghost gs = self.in_memory_graph_collection@;
        let dto = CreateGraphDTO { name };
        let graph = match validate_and_map_graph(dto, &*self) {
            Ok(g) => g,
            Err(e) => {
                return Err(e);
            },
        };
        self.in_memory_graph_collection.push(graph);
        proof {
            if unique_graph_names(gs) {
                let gs2 = self.in_memory_graph_collection@;
                assert forall|i: int, j: int|
                    0 <= i < gs2.len() && 0 <= j < gs2.len() && i != j implies (
                #[trigger] gs2[i]).name@ != (#[trigger] gs2[j]).name@ by {
                    if i < gs.len() && j < gs.len() {
                        assert(gs[i].name@ != gs[j].name@);
                    } else if j == gs.len() {
                        assert(graph_names(gs)[i] == gs[i].name@);
                    } else {
                        assert(graph_names(gs)[j] == gs[j].name@);
                    }
                }
            }
        }
        Ok(())
    }
}

} // verus!
