//! The flat record in which a node is stored.

use vstd::prelude::*;

verus! {

/// A stored node. The scale index of the node is not part of the record: the
/// layer that holds the record knows it.
#[derive(Debug)]
pub struct NodeProto {
    /// How many points the node covers.
    pub cover_count: u64,
    /// Index of the center.
    pub center_index: u64,
    /// Bits of the radius.
    pub radius: u32,
    /// The singletons, in order.
    pub outlier_point_indexes: Vec<u64>,
    /// Whether the node has no children. When set, the three fields below
    /// are not read.
    pub is_leaf: bool,
    /// Scale index of the nested child.
    pub nested_scale_index: i32,
    /// Scale indexes of the routing children.
    pub children_scale_indexes: Vec<i32>,
    /// Center indexes of the routing children, aligned with their scale
    /// indexes.
    pub children_point_indexes: Vec<u64>,
}

/// What a `NodeProto` holds.
pub struct NodeRecord {
    pub cover_count: u64,
    pub center_index: u64,
    pub radius: u32,
    pub outlier_point_indexes: Seq<u64>,
    pub is_leaf: bool,
    pub nested_scale_index: i32,
    pub children_scale_indexes: Seq<i32>,
    pub children_point_indexes: Seq<u64>,
}

impl View for NodeProto {
    type V = NodeRecord;

    open spec fn view(&self) -> NodeRecord {
        NodeRecord {
            cover_count: self.cover_count,
            center_index: self.center_index,
            radius: self.radius,
            outlier_point_indexes: self.outlier_point_indexes@,
            is_leaf: self.is_leaf,
            nested_scale_index: self.nested_scale_index,
            children_scale_indexes: self.children_scale_indexes@,
            children_point_indexes: self.children_point_indexes@,
        }
    }
}

impl Clone for NodeProto {
    fn clone(&self) -> (proto: Self)
        ensures
            proto@ == self@,
    {
        NodeProto {
            cover_count: self.cover_count,
            center_index: self.center_index,
            radius: self.radius,
            outlier_point_indexes: self.outlier_point_indexes.clone(),
            is_leaf: self.is_leaf,
            nested_scale_index: self.nested_scale_index,
            children_scale_indexes: self.children_scale_indexes.clone(),
            children_point_indexes: self.children_point_indexes.clone(),
        }
    }
}

impl NodeProto {
    /// A record with every field at its zero: no points, no children, and
    /// not marked as a leaf.
    pub fn new() -> (proto: NodeProto)
        ensures
            proto@ == (NodeRecord {
                cover_count: 0,
                center_index: 0,
                radius: 0,
                outlier_point_indexes: Seq::empty(),
                is_leaf: false,
                nested_scale_index: 0,
                children_scale_indexes: Seq::empty(),
                children_point_indexes: Seq::empty(),
            }),
    {
        NodeProto {
            cover_count: 0,
            center_index: 0,
            radius: 0,
            outlier_point_indexes: Vec::new(),
            is_leaf: false,
            nested_scale_index: 0,
            children_scale_indexes: Vec::new(),
            children_point_indexes: Vec::new(),
        }
    }
}

} // verus!
