use vstd::prelude::*;
use crate::encoding::{inner_ref, PackedPos, PackedRef, RefModel, MAX_IND};

verus! {

/// Mathematical value of an inner node: the half-open payload range
/// `[begin, end)` labelling the edge from its parent, its suffix link, and
/// one child slot per byte value (a sequence of length 256 indexed by the
/// first label byte of each outgoing edge).
#[verifier::ext_equal]
pub ghost struct NodeModel {
    pub begin: int,
    pub end: int,
    pub suffix: RefModel,
    pub child: Seq<RefModel>,
}

/// A child table with every slot holding the same reference.
pub open spec fn uniform_children(r: RefModel) -> Seq<RefModel> {
    Seq::new(256, |i: int| r)
}

/// An inner node of the tree.  The label of the incoming edge is
/// `payload[begin..end]`; `suffix` is the node's suffix link; `child` has
/// exactly 256 slots, at most one outgoing edge per possible first byte.
pub struct Node {
    pub begin: PackedPos,
    pub end: PackedPos,
    pub suffix: PackedRef,
    pub child: Vec<PackedRef>,
}

impl View for Node {
    type V = NodeModel;

    open spec fn view(&self) -> NodeModel {
        NodeModel {
            begin: self.begin@,
            end: self.end@,
            suffix: self.suffix@,
            child: self.child@.map_values(|r: PackedRef| r@),
        }
    }
}

impl Node {
    /// A node with the given label range and suffix-link index, and every
    /// child slot pointing at inner node `child_ind`.  Only the two
    /// sentinel nodes want a nonzero `child_ind`: the "top" node's slots
    /// all lead to the root.
    pub fn new_special(begin: usize, end: usize, suffix_ind: usize, child_ind: usize) -> (r:
        Node)
        requires
            begin <= 0xffff_ffff,
            end <= 0xffff_ffff,
            suffix_ind <= MAX_IND,
            child_ind <= MAX_IND,
        ensures
            r@ == (NodeModel {
                begin: begin as int,
                end: end as int,
                suffix: inner_ref(suffix_ind as int),
                child: uniform_children(inner_ref(child_ind as int)),
            }),
    {
        let mut child: Vec<PackedRef> = Vec::new();
        let mut i: usize = 0;
        while i < 256
            invariant
                i <= 256,
                child@.len() == i,
                child_ind <= MAX_IND,
                forall|j: int| 0 <= j < i ==> child@[j]@ == inner_ref(child_ind as int),
            decreases 256 - i,
        {
            child.push(PackedRef::from_inner(child_ind));
            i += 1;
        }
        let r = Node {
            begin: PackedPos::from(begin),
            end: PackedPos::from(end),
            suffix: PackedRef::from_inner(suffix_ind),
            child,
        };
        proof {
            assert(r@.child =~= uniform_children(inner_ref(child_ind as int)));
        }
        r
    }

    /// An ordinary fresh node: label `[begin, end)`, suffix link to
    /// `suffix_ind`, no children.
    pub fn new(begin: usize, end: usize, suffix_ind: usize) -> (r: Node)
        requires
            begin <= 0xffff_ffff,
            end <= 0xffff_ffff,
            suffix_ind <= MAX_IND,
        ensures
            r@ == (NodeModel {
                begin: begin as int,
                end: end as int,
                suffix: inner_ref(suffix_ind as int),
                child: uniform_children(RefModel::Absent),
            }),
    {
        Self::new_special(begin, end, suffix_ind, 0)
    }

    /// Length of the incoming edge's label.
    pub fn label_len(&self) -> (r: usize)
        requires
            self@.begin <= self@.end,
        ensures
            r == self@.end - self@.begin,
    {
        self.end.unpack() - self.begin.unpack()
    }
}

/// The active point: `node` is the last explicitly reached inner node, and
/// `pos` an absolute payload offset such that `payload[pos..new_end)` is
/// the still-unconsumed tail to be matched below `node`.
#[derive(Clone, Copy, PartialEq, Eq, Structural, Debug)]
pub struct Cursor {
    pub node: usize,
    pub pos: usize,
}

} // verus!
