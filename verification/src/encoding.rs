use vstd::prelude::*;

verus! {

/// Largest node index or leaf offset that the packed reference encoding can
/// hold: a reference keeps a one-bit tag beside the value in 32 bits, so the
/// value itself has 31 bits.  Equal to `u32::MAX / 2`.
pub const MAX_IND: usize = 0x7fff_ffff;

/// How a construction step can fail.
///
/// `Capacity`: a payload offset or node index does not fit the packed
/// 32-bit encoding; detected at the point of encoding, before the value
/// could wrap.  `Inconsistency`: the arena violates a structural invariant
/// of the algorithm (an expected child edge is absent, a suffix link does
/// not lead to an inner node, an edge range is empty or out of bounds);
/// not expected of a well-formed build, and non-recoverable.
#[derive(Clone, Copy, PartialEq, Eq, Structural, Debug)]
pub enum BuildError {
    Capacity,
    Inconsistency,
}

/// Mathematical value of a packed reference: absent, a leaf whose label
/// starts at the given payload offset, or an inner node at the given arena
/// index.
pub ghost enum RefModel {
    Absent,
    Leaf(int),
    Inner(int),
}

impl RefModel {
    /// What `PackedRef::unpack` returns for a reference with this value:
    /// the packed encoding cannot tell "absent" from "inner node 0".
    pub open spec fn unpacked(self) -> NodeRef {
        match self {
            RefModel::Absent => NodeRef::Inner(0),
            RefModel::Leaf(p) => NodeRef::Leaf(p as usize),
            RefModel::Inner(i) => NodeRef::Inner(i as usize),
        }
    }
}

/// The reference that `PackedRef::from_inner` yields for a given index:
/// index 0 encodes as the "absent" value.
pub open spec fn inner_ref(i: int) -> RefModel {
    if i == 0 {
        RefModel::Absent
    } else {
        RefModel::Inner(i)
    }
}

/// An unpacked reference, as handed out by `PackedRef::unpack`.  The
/// "absent" reference unpacks to `Inner(0)`, node 0 being the sentinel that
/// no real child or suffix link designates.
#[derive(Clone, Copy, PartialEq, Eq, Structural, Debug)]
pub enum NodeRef {
    Leaf(usize),
    Inner(usize),
}

/// A payload offset stored compactly in 32 bits.
#[derive(Clone, Copy)]
pub struct PackedPos(pub u32);

impl View for PackedPos {
    type V = int;

    open spec fn view(&self) -> int {
        self.0 as int
    }
}

impl PackedPos {
    /// Packs an offset; offsets above `u32::MAX` are not representable and
    /// are excluded rather than truncated.
    pub fn from(pos: usize) -> (r: PackedPos)
        requires
            pos <= 0xffff_ffff,
        ensures
            r@ == pos as int,
    {
        PackedPos(pos as u32)
    }

    pub fn unpack(&self) -> (r: usize)
        ensures
            r == self@,
    {
        self.0 as usize
    }
}

/// A tagged reference packed into 32 bits: value `2 * i` is the inner node
/// at index `i` (so raw value 0, inner node 0, doubles as "absent"), and
/// value `2 * p + 1` is the leaf whose label starts at payload offset `p`.
#[derive(Clone, Copy)]
pub struct PackedRef(pub u32);

impl View for PackedRef {
    type V = RefModel;

    open spec fn view(&self) -> RefModel {
        if self.0 == 0 {
            RefModel::Absent
        } else if self.0 % 2 == 0 {
            RefModel::Inner(self.0 as int / 2)
        } else {
            RefModel::Leaf(self.0 as int / 2)
        }
    }
}

impl PackedRef {
    /// Packs an inner-node index; indices above `MAX_IND` are not
    /// representable and are excluded rather than wrapped.
    pub fn from_inner(ind: usize) -> (r: PackedRef)
        requires
            ind <= MAX_IND,
        ensures
            r@ == inner_ref(ind as int),
    {
        PackedRef((ind * 2) as u32)
    }

    /// Packs a leaf offset; offsets above `MAX_IND` are not representable
    /// and are excluded rather than wrapped.
    pub fn from_leaf(pos: usize) -> (r: PackedRef)
        requires
            pos <= MAX_IND,
        ensures
            r@ == RefModel::Leaf(pos as int),
    {
        PackedRef((pos * 2 + 1) as u32)
    }

    /// Decodes the tag and value; exact inverse of the constructors, with
    /// "absent" coming back as `Inner(0)`.
    pub fn unpack(&self) -> (r: NodeRef)
        ensures
            r == self@.unpacked(),
    {
        if self.0 % 2 == 0 {
            NodeRef::Inner((self.0 / 2) as usize)
        } else {
            NodeRef::Leaf((self.0 / 2) as usize)
        }
    }

    /// Constant-time check for the "absent" value.
    pub fn is_none(&self) -> (r: bool)
        ensures
            r == (self@ is Absent),
    {
        self.0 == 0
    }
}

} // verus!
