//! The node of a cover tree.
//!
//! A node knows its address, the radius measured around its center, how many
//! points it covers, the singletons attached to it and, once it routes, its
//! children: the nested child, which shares its center one scale further
//! down and is not stored, and the routing children, which are.

use crate::distance::{is_nan, less_than, lt, order_key};
use crate::errors::{MalwareBrotError, MalwareBrotResult};
use crate::query_tools::{offers_keep_order, HeapView, KnnQueryHeap};
use crate::storage::{Siblings, Singletons, MAX_ITEMS};
use crate::storage::{siblings_held, singletons_held};
use crate::tree_file_format::{NodeProto, NodeRecord};
use crate::{NodeAddress, PointIndex};
use vstd::prelude::*;

verus! {

/// The children of a routing node.
#[derive(Debug)]
pub struct NodeChildren {
    nested_scale: i32,
    addresses: Siblings,
}

/// The cover node.
#[derive(Debug)]
pub struct CoverNode {
    address: NodeAddress,
    radius: u32,
    cover_count: usize,
    children: Option<NodeChildren>,
    singles_indexes: Singletons,
}

/// What a `NodeChildren` holds.
pub struct ChildrenView {
    /// Scale index of the nested child.
    pub nested_scale: i32,
    /// Addresses of the routing children, in the order they were inserted.
    pub addresses: Seq<NodeAddress>,
}

/// What a `CoverNode` holds.
pub struct NodeView {
    pub address: NodeAddress,
    /// Bits of the radius.
    pub radius: u32,
    pub cover_count: nat,
    /// The singletons, in the order they were inserted.
    pub singles: Seq<PointIndex>,
    /// `None` for a leaf.
    pub children: Option<ChildrenView>,
}

/// One insert into a node.
pub enum Insert {
    /// The nested child at a scale index, covering `coverage` points.
    NestedChild { scale_index: i32, coverage: nat },
    /// A routing child at an address, covering `coverage` points.
    Child { address: NodeAddress, coverage: nat },
    /// One singleton.
    Singleton { index: PointIndex },
    /// Several singletons, in order.
    Singletons { indexes: Seq<PointIndex> },
}

impl Insert {
    /// How many points the insert brings under the node.
    pub open spec fn coverage(self) -> nat {
        match self {
            Insert::NestedChild { coverage, .. } => coverage,
            Insert::Child { coverage, .. } => coverage,
            Insert::Singleton { .. } => 1,
            Insert::Singletons { indexes } => indexes.len(),
        }
    }
}

impl NodeView {
    /// Whether the node is a leaf.
    pub open spec fn is_leaf(self) -> bool {
        self.children is None
    }

    /// The refusal that an insert meets, if any: a second nested child, or a
    /// routing child before the nested one.
    pub open spec fn refusal(self, op: Insert) -> Option<MalwareBrotError> {
        match op {
            Insert::NestedChild { .. } => if self.is_leaf() {
                None
            } else {
                Some(MalwareBrotError::DoubleNest)
            },
            Insert::Child { .. } => if self.is_leaf() {
                Some(MalwareBrotError::InsertBeforeNest)
            } else {
                None
            },
            Insert::Singleton { .. } => None,
            Insert::Singletons { .. } => None,
        }
    }

    /// The node after an insert. A refused insert leaves it as it was.
    pub open spec fn after(self, op: Insert) -> NodeView {
        if self.refusal(op) is Some {
            self
        } else {
            let counted = NodeView { cover_count: self.cover_count + op.coverage(), ..self };
            match op {
                Insert::NestedChild { scale_index, .. } => NodeView {
                    children: Some(
                        ChildrenView { nested_scale: scale_index, addresses: Seq::empty() },
                    ),
                    ..counted
                },
                Insert::Child { address, .. } => NodeView {
                    children: Some(
                        ChildrenView {
                            nested_scale: self.children->0.nested_scale,
                            addresses: self.children->0.addresses.push(address),
                        },
                    ),
                    ..counted
                },
                Insert::Singleton { index } => NodeView {
                    singles: self.singles.push(index),
                    ..counted
                },
                Insert::Singletons { indexes } => NodeView {
                    singles: self.singles + indexes,
                    ..counted
                },
            }
        }
    }

    /// Whether the node can take the insert within the limits of the
    /// machine: the cover count stays a machine word and the collection that
    /// grows stays within `MAX_ITEMS`. A refused insert needs no room.
    pub open spec fn has_room(self, op: Insert) -> bool {
        self.refusal(op) is None ==> {
            &&& self.cover_count + op.coverage() <= usize::MAX
            &&& match op {
                Insert::NestedChild { .. } => true,
                Insert::Child { .. } => self.children->0.addresses.len() < MAX_ITEMS,
                Insert::Singleton { .. } => self.singles.len() < MAX_ITEMS,
                Insert::Singletons { indexes } => self.singles.len() + indexes.len() <= MAX_ITEMS,
            }
        }
    }

    /// The centers of the routing children, in order; none for a leaf.
    pub open spec fn child_centers(self) -> Seq<PointIndex> {
        match self.children {
            Some(c) => c.addresses.map_values(|a: NodeAddress| a.1),
            None => Seq::empty(),
        }
    }

    /// The points that the node must keep apart: its singletons, its own
    /// center, and the centers of its routing children.
    pub open spec fn separation_indexes(self) -> Seq<PointIndex> {
        self.singles.push(self.address.1) + self.child_centers()
    }

    /// The query after the singletons are offered, each with its distance.
    pub open spec fn singleton_knn(self, heap: HeapView, dists: Seq<u32>) -> HeapView {
        heap.push_outliers(self.singles, dists)
    }

    /// The query after the children are offered: first the nested child, at
    /// the distance of the center and with no parent told, then the routing
    /// children, each at its distance and with this node as its parent. A
    /// leaf offers nothing.
    pub open spec fn child_knn(self, heap: HeapView, dist_to_center: u32, dists: Seq<u32>)
        -> HeapView {
        match self.children {
            Some(c) => heap.push_nodes(
                seq![(c.nested_scale, self.address.1)],
                seq![dist_to_center],
                None,
            ).push_nodes(c.addresses, dists, Some(self.address)),
            None => heap,
        }
    }

    /// The query after the node has offered all it has: its singletons, its
    /// children and, if it is a leaf, its own center.
    pub open spec fn knn(
        self,
        heap: HeapView,
        dist_to_center: u32,
        singleton_dists: Seq<u32>,
        child_dists: Seq<u32>,
    ) -> HeapView {
        let offered = self.child_knn(
            self.singleton_knn(heap, singleton_dists),
            dist_to_center,
            child_dists,
        );
        if self.is_leaf() {
            offered.push_outliers(seq![self.address.1], seq![dist_to_center])
        } else {
            offered
        }
    }

    /// The node after a run of inserts, first to last.
    pub open spec fn after_all(self, ops: Seq<Insert>) -> NodeView
        decreases ops.len(),
    {
        if ops.len() == 0 {
            self
        } else {
            self.after_all(ops.drop_last()).after(ops.last())
        }
    }

    /// The coverage of those inserts of a run that are not refused.
    pub open spec fn accepted_coverage(self, ops: Seq<Insert>) -> nat
        decreases ops.len(),
    {
        if ops.len() == 0 {
            0
        } else {
            let before = self.after_all(ops.drop_last());
            self.accepted_coverage(ops.drop_last()) + if before.refusal(ops.last()) is None {
                ops.last().coverage()
            } else {
                0
            }
        }
    }
}

impl NodeChildren {
    #[verifier::type_invariant]
    spec fn within_limits(self) -> bool {
        siblings_held(self.addresses).len() <= MAX_ITEMS
    }

    /// Scale index of the nested child.
    pub fn nested_scale(&self) -> (scale: i32)
        ensures
            scale == self@.nested_scale,
    {
        self.nested_scale
    }

    /// Addresses of the routing children.
    pub fn addresses(&self) -> (addresses: &[NodeAddress])
        ensures
            addresses@ == self@.addresses,
    {
        self.addresses.as_slice()
    }
}

impl View for NodeChildren {
    type V = ChildrenView;

    closed spec fn view(&self) -> ChildrenView {
        ChildrenView { nested_scale: self.nested_scale, addresses: siblings_held(self.addresses) }
    }
}

impl View for CoverNode {
    type V = NodeView;

    closed spec fn view(&self) -> NodeView {
        NodeView {
            address: self.address,
            radius: self.radius,
            cover_count: self.cover_count as nat,
            singles: singletons_held(self.singles_indexes),
            children: match self.children {
                Some(c) => Some(c@),
                None => None,
            },
        }
    }
}

impl Clone for NodeChildren {
    fn clone(&self) -> (children: Self)
        ensures
            children@ == self@,
    {
        proof {
            use_type_invariant(self);
        }
        NodeChildren { nested_scale: self.nested_scale, addresses: self.addresses.duplicate() }
    }
}

impl Clone for CoverNode {
    fn clone(&self) -> (node: Self)
        ensures
            node@ == self@,
    {
        proof {
            use_type_invariant(self);
        }
        CoverNode {
            address: self.address,
            radius: self.radius,
            cover_count: self.cover_count,
            children: match &self.children {
                Some(c) => Some(c.clone()),
                None => None,
            },
            singles_indexes: self.singles_indexes.duplicate(),
        }
    }
}

/// The addresses made of two aligned lists, as far as both reach.
pub open spec fn paired(scales: Seq<i32>, points: Seq<PointIndex>) -> Seq<NodeAddress> {
    Seq::new(
        if scales.len() <= points.len() {
            scales.len()
        } else {
            points.len()
        },
        |i: int| (scales[i], points[i]),
    )
}

/// Whether a record can be loaded: the collections of the node take its
/// singletons and, unless it is a leaf, its children.
pub open spec fn loadable(record: NodeRecord) -> bool {
    &&& record.outlier_point_indexes.len() <= MAX_ITEMS
    &&& record.is_leaf || paired(
        record.children_scale_indexes,
        record.children_point_indexes,
    ).len() <= MAX_ITEMS
}

/// The node that a record stands for at a scale index.
pub open spec fn loaded(scale_index: i32, record: NodeRecord) -> NodeView {
    NodeView {
        address: (scale_index, record.center_index),
        radius: record.radius,
        cover_count: (record.cover_count as usize) as nat,
        singles: record.outlier_point_indexes,
        children: if record.is_leaf {
            None
        } else {
            Some(
                ChildrenView {
                    nested_scale: record.nested_scale_index,
                    addresses: paired(
                        record.children_scale_indexes,
                        record.children_point_indexes,
                    ),
                },
            )
        },
    }
}

/// The record that stands for a node.
pub open spec fn saved(node: NodeView) -> NodeRecord {
    NodeRecord {
        cover_count: node.cover_count as u64,
        center_index: node.address.1,
        radius: node.radius,
        outlier_point_indexes: node.singles,
        is_leaf: node.children is None,
        nested_scale_index: match node.children {
            Some(c) => c.nested_scale,
            None => 0,
        },
        children_scale_indexes: match node.children {
            Some(c) => c.addresses.map_values(|a: NodeAddress| a.0),
            None => Seq::empty(),
        },
        children_point_indexes: match node.children {
            Some(c) => c.addresses.map_values(|a: NodeAddress| a.1),
            None => Seq::empty(),
        },
    }
}

impl CoverNode {
    #[verifier::type_invariant]
    spec fn within_limits(self) -> bool {
        singletons_held(self.singles_indexes).len() <= MAX_ITEMS
    }

    /// Creates a node without points: a leaf of radius zero.
    pub fn new(address: NodeAddress) -> (node: CoverNode)
        ensures
            node@ == (NodeView {
                address,
                radius: 0,
                cover_count: 0,
                singles: Seq::empty(),
                children: None,
            }),
    {
        CoverNode {
            address,
            radius: 0,
            cover_count: 0,
            children: None,
            singles_indexes: Singletons::new(),
        }
    }

    /// Rebuilds the node that `node_proto` stands for at `scale_index`. The
    /// children are read as far as both of their lists reach, and a cover
    /// count wider than the machine word keeps its low bits.
    pub fn load(scale_index: i32, node_proto: &NodeProto) -> (node: CoverNode)
        requires
            loadable(node_proto@),
        ensures
            node@ == loaded(scale_index, node_proto@),
    {
        let mut singles_indexes = Singletons::new();
        let mut i: usize = 0;
        while i < node_proto.outlier_point_indexes.len()
            invariant
                i <= node_proto.outlier_point_indexes.len() <= MAX_ITEMS,
                singletons_held(singles_indexes) == node_proto.outlier_point_indexes@.take(
                    i as int,
                ),
            decreases node_proto.outlier_point_indexes.len() - i,
        {
            singles_indexes.push(node_proto.outlier_point_indexes[i]);
            i = i + 1;
            assert(node_proto.outlier_point_indexes@.take(i as int)
                == node_proto.outlier_point_indexes@.take(i - 1).push(
                node_proto.outlier_point_indexes@[i - 1],
            ));
        }
        assert(node_proto.outlier_point_indexes@.take(i as int)
            == node_proto.outlier_point_indexes@);
        let children = if node_proto.is_leaf {
            None
        } else {
            let scales = &node_proto.children_scale_indexes;
            let points = &node_proto.children_point_indexes;
            let count: usize = if scales.len() <= points.len() {
                scales.len()
            } else {
                points.len()
            };
            let mut addresses = Siblings::new();
            let mut j: usize = 0;
            while j < count
                invariant
                    j <= count <= MAX_ITEMS,
                    count <= scales.len(),
                    count <= points.len(),
                    siblings_held(addresses) == paired(scales@, points@).take(j as int),
                decreases count - j,
            {
                addresses.push((scales[j], points[j]));
                j = j + 1;
                assert(paired(scales@, points@).take(j as int) == paired(scales@, points@).take(
                    j - 1,
                ).push((scales@[j - 1], points@[j - 1])));
            }
            assert(paired(scales@, points@).take(j as int) == paired(scales@, points@));
            Some(NodeChildren { nested_scale: node_proto.nested_scale_index, addresses })
        };
        CoverNode {
            address: (scale_index, node_proto.center_index),
            radius: node_proto.radius,
            cover_count: #[verifier::truncate]
            (node_proto.cover_count as usize),
            children,
            singles_indexes,
        }
    }

    /// Whether the node has no children.
    pub fn is_leaf(&self) -> (leaf: bool)
        ensures
            leaf == self@.is_leaf(),
    {
        self.children.is_none()
    }

    /// Bits of the radius: the largest distance measured from the center to
    /// a covered point, as far as `set_radius` was told.
    pub fn radius(&self) -> (radius: u32)
        ensures
            radius == self@.radius,
    {
        self.radius
    }

    /// How many points the node covers.
    pub fn cover_count(&self) -> (count: usize)
        ensures
            count == self@.cover_count,
    {
        self.cover_count
    }

    /// Makes the node a routing node: it gets its nested child, at
    /// `scale_index`, and covers `coverage` points more. A node that already
    /// has one refuses and stays as it was.
    pub fn insert_nested_child(&mut self, scale_index: i32, coverage: usize) -> (result:
        MalwareBrotResult<()>)
        requires
            old(self)@.has_room(Insert::NestedChild { scale_index, coverage: coverage as nat }),
        ensures
            final(self)@ == old(self)@.after(
                Insert::NestedChild { scale_index, coverage: coverage as nat },
            ),
            result is Ok <==> old(self)@.is_leaf(),
            result is Err ==> result == Err::<(), _>(MalwareBrotError::DoubleNest),
    {
        proof {
            use_type_invariant(&*self);
        }
        if self.children.is_some() {
            Err(MalwareBrotError::DoubleNest)
        } else {
            self.cover_count = self.cover_count + coverage;
            self.children = Some(
                NodeChildren { nested_scale: scale_index, addresses: Siblings::new() },
            );
            Ok(())
        }
    }

    /// Takes the children off the node and returns them; the node is a leaf
    /// afterwards. The cover count is not touched.
    pub fn remove_children(&mut self) -> (children: Option<NodeChildren>)
        ensures
            final(self)@ == (NodeView { children: None, ..old(self)@ }),
            match children {
                Some(c) => old(self)@.children == Some(c@),
                None => old(self)@.children is None,
            },
    {
        proof {
            use_type_invariant(&*self);
        }
        let mut children: Option<NodeChildren> = None;
        core::mem::swap(&mut self.children, &mut children);
        children
    }

    /// The number of singletons.
    pub fn singleton_len(&self) -> (len: usize)
        ensures
            len == self@.singles.len(),
    {
        self.singles_indexes.len()
    }

    /// The singletons, in the order they were inserted.
    pub fn singletons(&self) -> (singles: &[PointIndex])
        ensures
            singles@ == self@.singles,
    {
        self.singles_indexes.as_slice()
    }

    /// Index of the center.
    pub fn center_index(&self) -> (index: &PointIndex)
        ensures
            *index == self@.address.1,
    {
        &self.address.1
    }

    /// Scale index of the node.
    pub fn scale_index(&self) -> (index: &i32)
        ensures
            *index == self@.address.0,
    {
        &self.address.0
    }

    /// The number of children, the nested one counted: none for a leaf.
    pub fn children_len(&self) -> (len: usize)
        ensures
            len == match self@.children {
                Some(c) => c.addresses.len() + 1,
                None => 0,
            },
    {
        match &self.children {
            Some(children) => {
                proof {
                    use_type_invariant(children);
                }
                children.addresses.len() + 1
            },
            None => 0,
        }
    }

    /// The scale index of the nested child and the addresses of the routing
    /// children; nothing for a leaf.
    pub fn children(&self) -> (children: Option<(i32, &[NodeAddress])>)
        ensures
            match children {
                Some((nested_scale, addresses)) => self@.children == Some(
                    ChildrenView { nested_scale, addresses: addresses@ },
                ),
                None => self@.children is None,
            },
    {
        match &self.children {
            Some(c) => Some((c.nested_scale, c.addresses.as_slice())),
            None => None,
        }
    }

    /// The centers of the routing children, in order: the points whose
    /// distances `child_knn` asks for.
    pub fn child_centers(&self) -> (centers: Vec<PointIndex>)
        ensures
            centers@ == self@.child_centers(),
    {
        let mut centers: Vec<PointIndex> = Vec::new();
        match &self.children {
            Some(children) => {
                let addresses = children.addresses.as_slice();
                let mut i: usize = 0;
                while i < addresses.len()
                    invariant
                        i <= addresses.len(),
                        centers@.len() == i,
                        forall|j: int| 0 <= j < i ==> centers@[j] == addresses@[j].1,
                    decreases addresses.len() - i,
                {
                    centers.push(addresses[i].1);
                    i = i + 1;
                }
                assert(centers@ == addresses@.map_values(|a: NodeAddress| a.1));
            },
            None => {},
        }
        centers
    }

    /// The points whose smallest distance from one another
    /// `check_seperation` asks for: the singletons, the center, and the
    /// centers of the routing children.
    pub fn separation_indexes(&self) -> (indexes: Vec<PointIndex>)
        ensures
            indexes@ == self@.separation_indexes(),
    {
        let mut nodes: Vec<PointIndex> = vstd::slice::slice_to_vec(
            self.singles_indexes.as_slice(),
        );
        nodes.push(self.address.1);
        let mut centers = self.child_centers();
        nodes.append(&mut centers);
        nodes
    }

    /// Offers to a query all that the node has. `dist_to_center` is the
    /// distance from the query point to the center; `singleton_dists` holds
    /// the distances to the singletons and `child_dists` those to the
    /// centers of the routing children, each in the order of the node. Lists
    /// are read as far as both the points and their distances reach.
    pub fn knn(
        &self,
        dist_to_center: u32,
        singleton_dists: &[u32],
        child_dists: &[u32],
        query_heap: &mut KnnQueryHeap,
    )
        ensures
            final(query_heap)@ == self@.knn(
                old(query_heap)@,
                dist_to_center,
                singleton_dists@,
                child_dists@,
            ),
    {
        self.singleton_knn(singleton_dists, query_heap);
        self.child_knn(dist_to_center, child_dists, query_heap);
        if self.children.is_none() {
            let center: Vec<PointIndex> = vec![self.address.1];
            let dist: Vec<u32> = vec![dist_to_center];
            assert(center@ == seq![self.address.1]);
            assert(dist@ == seq![dist_to_center]);
            query_heap.push_outliers(center.as_slice(), dist.as_slice());
        }
    }

    /// Offers the singletons to a query, each with its distance to the
    /// query point.
    pub fn singleton_knn(&self, dists: &[u32], query_heap: &mut KnnQueryHeap)
        ensures
            final(query_heap)@ == self@.singleton_knn(old(query_heap)@, dists@),
    {
        query_heap.push_outliers(self.singles_indexes.as_slice(), dists);
    }

    /// Offers the children to a query as nodes to expand: the nested child
    /// at the distance of the center, then the routing children at theirs. A
    /// leaf offers nothing.
    pub fn child_knn(&self, dist_to_center: u32, dists: &[u32], query_heap: &mut KnnQueryHeap)
        ensures
            final(query_heap)@ == self@.child_knn(old(query_heap)@, dist_to_center, dists@),
    {
        match &self.children {
            Some(children) => {
                let nested: Vec<NodeAddress> = vec![(children.nested_scale, self.address.1)];
                let dist: Vec<u32> = vec![dist_to_center];
                assert(nested@ == seq![(children.nested_scale, self.address.1)]);
                assert(dist@ == seq![dist_to_center]);
                query_heap.push_nodes(nested.as_slice(), dist.as_slice(), None);
                query_heap.push_nodes(children.addresses.as_slice(), dists, Some(self.address));
            },
            None => {},
        }
    }

    /// Tells whether `scale` is larger than `min_distance`, the smallest
    /// distance between two of the points of `separation_indexes`.
    pub fn check_seperation(&self, scale: u32, min_distance: u32) -> (exceeds: bool)
        ensures
            exceeds == less_than(min_distance, scale),
    {
        lt(min_distance, scale)
    }

    /// Attaches a routing child: its address goes behind the others and the
    /// node covers `coverage` points more. A leaf refuses and stays as it
    /// was.
    pub fn insert_child(&mut self, address: NodeAddress, coverage: usize) -> (result:
        MalwareBrotResult<()>)
        requires
            old(self)@.has_room(Insert::Child { address, coverage: coverage as nat }),
        ensures
            final(self)@ == old(self)@.after(Insert::Child { address, coverage: coverage as nat }),
            result is Ok <==> !old(self)@.is_leaf(),
            result is Err ==> result == Err::<(), _>(MalwareBrotError::InsertBeforeNest),
    {
        proof {
            use_type_invariant(&*self);
        }
        let mut taken: Option<NodeChildren> = None;
        core::mem::swap(&mut self.children, &mut taken);
        match taken {
            Some(children) => {
                let NodeChildren { nested_scale, addresses } = children;
                let mut addresses = addresses;
                addresses.push(address);
                self.children = Some(NodeChildren { nested_scale, addresses });
                self.cover_count = self.cover_count + coverage;
                Ok(())
            },
            None => Err(MalwareBrotError::InsertBeforeNest),
        }
    }

    /// Attaches singletons, in their order, behind those that are there.
    pub fn insert_singletons(&mut self, addresses: Vec<PointIndex>)
        requires
            old(self)@.has_room(Insert::Singletons { indexes: addresses@ }),
        ensures
            final(self)@ == old(self)@.after(Insert::Singletons { indexes: addresses@ }),
    {
        proof {
            use_type_invariant(&*self);
        }
        self.cover_count = self.cover_count + addresses.len();
        self.singles_indexes.extend(addresses);
    }

    /// Attaches one singleton behind those that are there.
    pub fn insert_singleton(&mut self, address: PointIndex)
        requires
            old(self)@.has_room(Insert::Singleton { index: address }),
        ensures
            final(self)@ == old(self)@.after(Insert::Singleton { index: address }),
    {
        proof {
            use_type_invariant(&*self);
        }
        self.cover_count = self.cover_count + 1;
        self.singles_indexes.push(address);
    }

    /// Records a radius. The node takes the caller's word for it.
    pub fn set_radius(&mut self, radius: u32)
        ensures
            final(self)@ == (NodeView { radius, ..old(self)@ }),
    {
        proof {
            use_type_invariant(&*self);
        }
        self.radius = radius;
    }

    /// Writes the node as a record. A leaf leaves the fields of the children
    /// at their zero.
    pub fn save(&self) -> (proto: NodeProto)
        ensures
            proto@ == saved(self@),
            loadable(proto@),
    {
        proof {
            use_type_invariant(self);
        }
        let mut proto = NodeProto::new();
        proto.cover_count = self.cover_count as u64;
        proto.center_index = self.address.1;
        proto.radius = self.radius;
        proto.outlier_point_indexes = vstd::slice::slice_to_vec(self.singles_indexes.as_slice());
        match &self.children {
            Some(children) => {
                proof {
                    use_type_invariant(children);
                }
                proto.is_leaf = false;
                proto.nested_scale_index = children.nested_scale;
                let addresses = children.addresses.as_slice();
                let mut scales: Vec<i32> = Vec::new();
                let mut points: Vec<u64> = Vec::new();
                let mut i: usize = 0;
                while i < addresses.len()
                    invariant
                        i <= addresses.len(),
                        scales@.len() == i,
                        points@.len() == i,
                        forall|k: int| 0 <= k < i ==> scales@[k] == addresses@[k].0,
                        forall|k: int| 0 <= k < i ==> points@[k] == addresses@[k].1,
                    decreases addresses.len() - i,
                {
                    scales.push(addresses[i].0);
                    points.push(addresses[i].1);
                    i = i + 1;
                }
                assert(scales@ == addresses@.map_values(|a: NodeAddress| a.0));
                assert(points@ == addresses@.map_values(|a: NodeAddress| a.1));
                proto.children_scale_indexes = scales;
                proto.children_point_indexes = points;
            },
            None => {
                proto.is_leaf = true;
            },
        }
        proto
    }
}

/// However many inserts a node is given, and in whatever order, its cover
/// count afterwards is the count before plus the coverage of each insert that
/// was not refused: nothing is lost and nothing is counted twice.
pub proof fn cover_count_is_sum_of_inserts(node: NodeView, ops: Seq<Insert>)
    ensures
        node.after_all(ops).cover_count == node.cover_count + node.accepted_coverage(ops),
    decreases ops.len(),
{
    if ops.len() > 0 {
        cover_count_is_sum_of_inserts(node, ops.drop_last());
    }
}

/// How much a node adds to a query when each of its points comes with a
/// distance: a routing node queues its routing children and one node more,
/// the nested child, and a leaf queues none; and the points kept grow by the
/// singletons, and for a leaf by its center, as far as `k` lets them.
pub proof fn knn_adds_children_and_singletons(
    node: NodeView,
    heap: HeapView,
    dist_to_center: u32,
    singleton_dists: Seq<u32>,
    child_dists: Seq<u32>,
)
    requires
        heap.well_formed(),
        singleton_dists.len() == node.singles.len(),
        child_dists.len() == node.child_centers().len(),
    ensures
        ({
            let after = node.knn(heap, dist_to_center, singleton_dists, child_dists);
            let offered = node.singles.len() + if node.is_leaf() {
                1nat
            } else {
                0nat
            };
            &&& after.well_formed()
            &&& after.k == heap.k
            &&& after.nodes.len() == heap.nodes.len() + match node.children {
                Some(c) => c.addresses.len() + 1,
                None => 0,
            }
            &&& after.best.len() == if heap.best.len() + offered <= heap.k {
                heap.best.len() + offered
            } else {
                heap.k
            }
        }),
{
    let with_singles = node.singleton_knn(heap, singleton_dists);
    offers_keep_order(heap.best, heap.k, node.singles, singleton_dists, node.singles.len());
    if node.is_leaf() {
        offers_keep_order(
            with_singles.best,
            heap.k,
            seq![node.address.1],
            seq![dist_to_center],
            1,
        );
    }
}

/// Where the scale and the smallest distance are equal, or one of them is
/// no number, `check_seperation` says no: the scale is then neither above
/// the distance nor below it.
pub proof fn separation_check_of_equals(scale: u32, min_distance: u32)
    requires
        order_key(scale) == order_key(min_distance) || is_nan(scale) || is_nan(min_distance),
    ensures
        !less_than(min_distance, scale),
        less_than(min_distance, scale) == less_than(scale, min_distance),
{
}

/// A node that is saved and loaded again at its own scale index is the node
/// it was: address, radius, cover count, singletons and children.
pub proof fn load_of_save_is_identity(node: CoverNode)
    ensures
        loaded(node@.address.0, saved(node@)) == node@,
{
    match node@.children {
        Some(c) => {
            assert(paired(
                c.addresses.map_values(|a: NodeAddress| a.0),
                c.addresses.map_values(|a: NodeAddress| a.1),
            ) == c.addresses);
        },
        None => {},
    }
}

} // verus!
