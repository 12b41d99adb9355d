use vstd::prelude::*;
use crate::encoding::{inner_ref, BuildError, NodeRef, PackedPos, PackedRef, RefModel, MAX_IND};
use crate::node::{uniform_children, Cursor, Node, NodeModel};

verus! {

// ---------------------------------------------------------------------------
// The mathematical model of a tree under construction.
//
// `SuffixTree::from` and `SuffixTree::update` are specified as computing
// exactly what the spec functions below describe: one `phase_step` per
// pending suffix, one `phase_outcome` per appended byte, one `build_from`
// fold over the whole payload.
// ---------------------------------------------------------------------------

/// The whole state of a tree: the payload bytes and the arena of inner
/// nodes.
#[verifier::ext_equal]
pub ghost struct TreeModel {
    pub payload: Seq<u8>,
    pub nodes: Seq<NodeModel>,
}

/// Structural facts that every tree under construction keeps: the payload
/// and the arena fit the packed encoding, the two sentinel nodes exist, and
/// every node has one child slot per byte value.
pub open spec fn wf_tree(t: TreeModel) -> bool {
    &&& t.payload.len() <= MAX_IND
    &&& 2 <= t.nodes.len() <= MAX_IND + 1
    &&& forall|i: int| 0 <= i < t.nodes.len() ==> (#[trigger] t.nodes[i]).child.len() == 256
}

/// The child slot of `node` keyed by byte `ch`.
pub open spec fn child_ref(t: TreeModel, node: int, ch: u8) -> RefModel {
    t.nodes[node].child[ch as int]
}

/// The tree after writing reference `r` into the child slot of `node`
/// keyed by `ch`.
pub open spec fn spec_set_child(t: TreeModel, node: int, ch: u8, r: RefModel) -> TreeModel {
    TreeModel {
        payload: t.payload,
        nodes: t.nodes.update(
            node,
            NodeModel {
                begin: t.nodes[node].begin,
                end: t.nodes[node].end,
                suffix: t.nodes[node].suffix,
                child: t.nodes[node].child.update(ch as int, r),
            },
        ),
    }
}

/// The tree after re-aiming the suffix link of `node` at `r`.
pub open spec fn spec_set_suffix(t: TreeModel, node: int, r: RefModel) -> TreeModel {
    TreeModel {
        payload: t.payload,
        nodes: t.nodes.update(
            node,
            NodeModel {
                begin: t.nodes[node].begin,
                end: t.nodes[node].end,
                suffix: r,
                child: t.nodes[node].child,
            },
        ),
    }
}

/// The tree after narrowing the label of `node` to start at `b`.
pub open spec fn spec_set_begin(t: TreeModel, node: int, b: int) -> TreeModel {
    TreeModel {
        payload: t.payload,
        nodes: t.nodes.update(
            node,
            NodeModel {
                begin: b,
                end: t.nodes[node].end,
                suffix: t.nodes[node].suffix,
                child: t.nodes[node].child,
            },
        ),
    }
}

/// The tree after appending a fresh node to the arena.
pub open spec fn spec_push(t: TreeModel, n: NodeModel) -> TreeModel {
    TreeModel { payload: t.payload, nodes: t.nodes.push(n) }
}

/// Canonicalization of the active point: starting from `node` with
/// unconsumed tail `payload[pos..new_end)`, descend along whole edges as
/// long as the tail covers them.  Stops at an implicit leaf, at an absent
/// slot, or when the match ends inside an edge; yields `None` on a
/// structural violation (a child index out of range, or an empty edge
/// label, which would make descent loop forever).
pub open spec fn canon(t: TreeModel, node: int, pos: int, new_end: int) -> Option<(int, int)>
    decreases new_end - pos,
{
    if pos >= new_end {
        Some((node, pos))
    } else if !(0 <= node < t.nodes.len() && 0 <= pos < t.payload.len()) {
        None
    } else {
        match child_ref(t, node, t.payload[pos]) {
            RefModel::Absent => Some((node, pos)),
            RefModel::Leaf(p) => Some((node, pos)),
            RefModel::Inner(idx) => {
                if !(0 <= idx < t.nodes.len()) {
                    None
                } else {
                    let len = t.nodes[idx].end - t.nodes[idx].begin;
                    if len > new_end - pos {
                        Some((node, pos))
                    } else if len < 1 {
                        None
                    } else {
                        canon(t, idx, pos + len, new_end)
                    }
                }
            },
        }
    }
}

/// The state a phase carries from one suffix extension to the next: the
/// tree so far, the active point, and the previous insertion point for
/// suffix-link chaining.
#[verifier::ext_equal]
pub ghost struct PhaseSt {
    pub t: TreeModel,
    pub node: int,
    pub pos: int,
    pub prev: int,
}

/// Outcome of one suffix extension: the phase stops with the cursor it
/// will hand to the next byte, goes on to the next pending suffix, or
/// fails.
pub ghost enum Step {
    Stop(int, int),
    Go(PhaseSt),
    Fail(BuildError),
}

/// Where the suffix link of `node` leads: the absent reference doubles as
/// inner node 0 under the packed encoding, an in-range inner index is
/// followed, and anything else is a structural violation.
pub open spec fn follow_suffix(t: TreeModel, node: int) -> Option<int> {
    match t.nodes[node].suffix {
        RefModel::Absent => Some(0),
        RefModel::Inner(i) => if 0 <= i < t.nodes.len() {
            Some(i)
        } else {
            None
        },
        RefModel::Leaf(p) => None,
    }
}

/// The tail shared by both insertion forms: chain the previous insertion
/// point's suffix link to the new one, attach the new implicit leaf keyed
/// by the new byte, and follow the active node's suffix link to the next,
/// one-shorter pending suffix.
pub open spec fn spec_finish(
    t: TreeModel,
    node: int,
    pos: int,
    prev: int,
    insert: int,
    new_end: int,
    new_ch: u8,
) -> Step {
    if !(0 <= prev < t.nodes.len() && 0 <= insert < t.nodes.len() && 0 <= node < t.nodes.len()) {
        Step::Fail(BuildError::Inconsistency)
    } else {
        let t1 = spec_set_suffix(t, prev, inner_ref(insert));
        let t2 = spec_set_child(t1, insert, new_ch, RefModel::Leaf(new_end));
        match follow_suffix(t2, node) {
            Option::None => Step::Fail(BuildError::Inconsistency),
            Option::Some(next) => Step::Go(PhaseSt { t: t2, node: next, pos, prev: insert }),
        }
    }
}

/// The mid-edge case: the active point sits inside the edge of `node`
/// selected by `esel`, whose target is `eref` with label starting at
/// `lbegin`.  Either the next label byte already matches the new byte
/// (stop), or the edge is split: a new inner node takes the matched label
/// prefix, the old target is re-homed under it (an inner target's label is
/// narrowed to the split point), and the new node replaces the old child
/// slot and becomes the insertion point.
pub open spec fn spec_split(
    t: TreeModel,
    node: int,
    pos: int,
    prev: int,
    new_end: int,
    new_ch: u8,
    esel: u8,
    eref: RefModel,
    lbegin: int,
) -> Step {
    let clp = lbegin + (new_end - pos);
    if !(0 <= clp < t.payload.len()) {
        Step::Fail(BuildError::Inconsistency)
    } else {
        let cch = t.payload[clp];
        if new_ch == cch {
            Step::Stop(node, pos)
        } else if t.nodes.len() > MAX_IND {
            Step::Fail(BuildError::Capacity)
        } else {
            let newidx = t.nodes.len() as int;
            let moved = match eref {
                RefModel::Leaf(p) => RefModel::Leaf(clp),
                _ => eref,
            };
            let t1 = match eref {
                RefModel::Inner(i) => spec_set_begin(t, i, clp),
                _ => t,
            };
            let n = NodeModel {
                begin: lbegin,
                end: clp,
                suffix: inner_ref(1),
                child: uniform_children(RefModel::Absent).update(cch as int, moved),
            };
            let t2 = spec_push(t1, n);
            let t3 = spec_set_child(t2, node, esel, inner_ref(newidx));
            spec_finish(t3, node, pos, prev, newidx, new_end, new_ch)
        }
    }
}

/// One suffix extension, after canonicalization brought the active point
/// to `(node, pos)`: decide whether the new byte is already implicitly
/// present (stop), must be attached right below the active node, or forces
/// an edge split.
pub open spec fn phase_step_at(s: PhaseSt, new_end: int, node: int, pos: int) -> Step {
    let t = s.t;
    let new_ch = t.payload[new_end];
    if !(0 <= node < t.nodes.len()) {
        Step::Fail(BuildError::Inconsistency)
    } else if pos == new_end {
        if !(child_ref(t, node, new_ch) is Absent) {
            Step::Stop(node, pos)
        } else {
            spec_finish(t, node, pos, s.prev, node, new_end, new_ch)
        }
    } else {
        let esel = t.payload[pos];
        let eref = child_ref(t, node, esel);
        match eref {
            RefModel::Absent => Step::Fail(BuildError::Inconsistency),
            RefModel::Leaf(p) => spec_split(t, node, pos, s.prev, new_end, new_ch, esel, eref, p),
            RefModel::Inner(i) => if !(0 <= i < t.nodes.len()) {
                Step::Fail(BuildError::Inconsistency)
            } else {
                spec_split(
                    t,
                    node,
                    pos,
                    s.prev,
                    new_end,
                    new_ch,
                    esel,
                    eref,
                    t.nodes[i].begin,
                )
            },
        }
    }
}

/// One suffix extension: canonicalize, then extend.
pub open spec fn phase_step(s: PhaseSt, new_end: int) -> Step {
    match canon(s.t, s.node, s.pos, new_end) {
        Option::None => Step::Fail(BuildError::Inconsistency),
        Option::Some((node, pos)) => phase_step_at(s, new_end, node, pos),
    }
}

/// Runs suffix extensions until the phase stops, fails, or the fuel is
/// spent (a correct phase takes at most one extension per pending suffix,
/// so running out of `phase_fuel` is itself a structural violation).
pub open spec fn phase_run(s: PhaseSt, new_end: int, fuel: nat) -> Result<
    (TreeModel, int, int),
    BuildError,
>
    decreases fuel,
{
    match phase_step(s, new_end) {
        Step::Stop(node, pos) => Ok((s.t, node, pos)),
        Step::Fail(e) => Err(e),
        Step::Go(s2) => if fuel == 0 {
            Err(BuildError::Inconsistency)
        } else {
            phase_run(s2, new_end, (fuel - 1) as nat)
        },
    }
}

/// One pending suffix per position up to `new_end`, plus one extension
/// that stops the phase.
pub open spec fn phase_fuel(new_end: int) -> nat {
    (new_end + 2) as nat
}

/// The whole phase for the byte at `new_end`: what `SuffixTree::update`
/// returns, starting from tree `t` and cursor `(node, pos)`, with the
/// sentinel node 0 seeding the suffix-link chain.
pub open spec fn phase_outcome(t: TreeModel, node: int, pos: int, new_end: int) -> Result<
    (TreeModel, int, int),
    BuildError,
> {
    phase_run(PhaseSt { t, node, pos, prev: 0 }, new_end, phase_fuel(new_end))
}

/// The sentinel at index 0 ("top"): every child slot leads to the root, so
/// a suffix-link walk off the root needs no special case.
pub open spec fn top_node() -> NodeModel {
    NodeModel { begin: 0, end: 0, suffix: RefModel::Absent, child: uniform_children(inner_ref(1)) }
}

/// The sentinel at index 1 ("root"): the empty string, with a one-byte
/// placeholder label so a top-to-root traversal consumes exactly one
/// synthetic byte.
pub open spec fn root_node() -> NodeModel {
    NodeModel { begin: 0, end: 1, suffix: RefModel::Absent, child: uniform_children(RefModel::Absent) }
}

/// The arena before any byte is processed: the two sentinels alone.
pub open spec fn init_tree(payload: Seq<u8>) -> TreeModel {
    TreeModel { payload, nodes: seq![top_node(), root_node()] }
}

/// The construction after the first `i` bytes: the initial arena threaded
/// through one phase per position, cursor starting at the root.
pub open spec fn build_from(payload: Seq<u8>, i: int) -> Result<(TreeModel, int, int), BuildError>
    decreases i,
{
    if i <= 0 {
        Ok((init_tree(payload), 1, 0))
    } else {
        match build_from(payload, i - 1) {
            Err(e) => Err(e),
            Ok((t, node, pos)) => phase_outcome(t, node, pos, i - 1),
        }
    }
}

/// What `SuffixTree::from` returns for a given payload: the finished
/// arena, or the error the construction runs into.  A payload too long for
/// the packed encoding is rejected before anything is built.
pub open spec fn build_outcome(payload: Seq<u8>) -> Result<TreeModel, BuildError> {
    if payload.len() > MAX_IND {
        Err(BuildError::Capacity)
    } else {
        match build_from(payload, payload.len() as int) {
            Ok((t, node, pos)) => Ok(t),
            Err(e) => Err(e),
        }
    }
}

/// Once one phase of the construction fails, every longer prefix of the
/// build fails the same way: the error sticks to the fold.
pub proof fn lemma_build_err_persists(payload: Seq<u8>, i: int, j: int)
    requires
        0 <= i <= j,
        build_from(payload, i) is Err,
    ensures
        build_from(payload, j) == build_from(payload, i),
    decreases j - i,
{
    if i < j {
        lemma_build_err_persists(payload, i, j - 1);
    }
}

// ---------------------------------------------------------------------------
// The executable tree.
// ---------------------------------------------------------------------------

/// A suffix tree under (or after) construction: the payload bytes and the
/// arena of inner nodes, append-only and addressed by stable indices.
pub struct SuffixTree {
    pub payload: Vec<u8>,
    pub nodes: Vec<Node>,
}

impl View for SuffixTree {
    type V = TreeModel;

    open spec fn view(&self) -> TreeModel {
        TreeModel { payload: self.payload@, nodes: self.nodes@.map_values(|n: Node| n@) }
    }
}

impl SuffixTree {
    /// The child slot of node `node` keyed by byte `ch`.
    pub fn get_child(&self, node: usize, ch: u8) -> (r: PackedRef)
        requires
            node < self@.nodes.len(),
            self@.nodes[node as int].child.len() == 256,
        ensures
            r@ == child_ref(self@, node as int, ch),
    {
        proof {
            assert(self@.nodes[node as int] == self.nodes@[node as int]@);
        }
        self.nodes[node].child[ch as usize]
    }

    /// The suffix link of node `node`.
    pub fn get_suffix(&self, node: usize) -> (r: PackedRef)
        requires
            node < self@.nodes.len(),
        ensures
            r@ == self@.nodes[node as int].suffix,
    {
        proof {
            assert(self@.nodes[node as int] == self.nodes@[node as int]@);
        }
        self.nodes[node].suffix
    }

    /// The label range of node `node`, as plain offsets.
    pub fn get_label(&self, node: usize) -> (r: (usize, usize))
        requires
            node < self@.nodes.len(),
        ensures
            r.0 == self@.nodes[node as int].begin,
            r.1 == self@.nodes[node as int].end,
    {
        proof {
            assert(self@.nodes[node as int] == self.nodes@[node as int]@);
        }
        (self.nodes[node].begin.unpack(), self.nodes[node].end.unpack())
    }

    /// Writes a child slot.
    fn set_child(&mut self, node: usize, ch: u8, r: PackedRef)
        requires
            node < old(self)@.nodes.len(),
            old(self)@.nodes[node as int].child.len() == 256,
        ensures
            final(self)@ == spec_set_child(old(self)@, node as int, ch, r@),
            wf_tree(old(self)@) ==> wf_tree(final(self)@),
    {
        proof {
            assert(old(self)@.nodes[node as int] == self.nodes@[node as int]@);
        }
        self.nodes[node].child[ch as usize] = r;
        proof {
            assert(final(self)@.nodes =~~= spec_set_child(old(self)@, node as int, ch, r@).nodes);
        }
    }

    /// Re-aims a suffix link.
    fn set_suffix(&mut self, node: usize, r: PackedRef)
        requires
            node < old(self)@.nodes.len(),
        ensures
            final(self)@ == spec_set_suffix(old(self)@, node as int, r@),
            wf_tree(old(self)@) ==> wf_tree(final(self)@),
    {
        proof {
            assert(old(self)@.nodes[node as int] == self.nodes@[node as int]@);
        }
        self.nodes[node].suffix = r;
        proof {
            assert(final(self)@.nodes =~~= spec_set_suffix(old(self)@, node as int, r@).nodes);
        }
    }

    /// Narrows a node's label to start at `b`.
    fn set_begin(&mut self, node: usize, b: usize)
        requires
            node < old(self)@.nodes.len(),
            b <= 0xffff_ffff,
        ensures
            final(self)@ == spec_set_begin(old(self)@, node as int, b as int),
            wf_tree(old(self)@) ==> wf_tree(final(self)@),
    {
        proof {
            assert(old(self)@.nodes[node as int] == self.nodes@[node as int]@);
        }
        self.nodes[node].begin = PackedPos::from(b);
        proof {
            assert(final(self)@.nodes =~~= spec_set_begin(old(self)@, node as int, b as int).nodes);
        }
    }

    /// One extension phase: inserts every suffix still pending after the
    /// byte at offset `new_end` was appended, and returns the cursor for
    /// the next byte.
    ///
    /// The result is pinned exactly: it is what the spec-level
    /// `phase_outcome` yields on the starting arena and cursor — the same
    /// canonicalization, insertions, splits and suffix-link writes, or the
    /// same error.  `Err(Capacity)` comes exactly when a fresh node would
    /// not fit the packed encoding, `Err(Inconsistency)` exactly when the
    /// arena breaks a structural invariant of the algorithm; a failed
    /// phase leaves no usable tree and the whole build is discarded.
    #[verifier::rlimit(60)]
    pub fn update(&mut self, cur_in: Cursor, new_end: usize) -> (r: Result<Cursor, BuildError>)
        requires
            wf_tree(old(self)@),
            new_end < old(self)@.payload.len(),
            cur_in.node < old(self)@.nodes.len(),
            cur_in.pos <= new_end,
        ensures
            final(self)@.payload == old(self)@.payload,
            wf_tree(final(self)@),
            old(self)@.nodes.len() <= final(self)@.nodes.len(),
            (match r {
                Ok(cur) => {
                    &&& phase_outcome(
                        old(self)@,
                        cur_in.node as int,
                        cur_in.pos as int,
                        new_end as int,
                    ) == Ok::<(TreeModel, int, int), BuildError>(
                        (final(self)@, cur.node as int, cur.pos as int),
                    )
                    &&& cur.node < final(self)@.nodes.len()
                    &&& cur.pos <= new_end
                },
                Err(e) => phase_outcome(
                    old(self)@,
                    cur_in.node as int,
                    cur_in.pos as int,
                    new_end as int,
                ) == Err::<(TreeModel, int, int), BuildError>(e),
            }),
    {
        let mut cur = cur_in;
        let new_ch = self.payload[new_end];
        let mut prev_insert_idx: usize = 0;
        let mut fuel: usize = new_end + 2;
        let ghost s0 = PhaseSt {
            t: self@,
            node: cur_in.node as int,
            pos: cur_in.pos as int,
            prev: 0,
        };
        let ghost goal = phase_run(s0, new_end as int, phase_fuel(new_end as int));

        loop
            invariant
                wf_tree(self@),
                self@.payload == old(self)@.payload,
                old(self)@.nodes.len() <= self@.nodes.len(),
                new_end < self@.payload.len(),
                new_ch == self@.payload[new_end as int],
                cur.node < self@.nodes.len(),
                cur.pos <= new_end,
                prev_insert_idx < self@.nodes.len(),
                goal == phase_run(
                    PhaseSt {
                        t: self@,
                        node: cur.node as int,
                        pos: cur.pos as int,
                        prev: prev_insert_idx as int,
                    },
                    new_end as int,
                    fuel as nat,
                ),
                goal == phase_outcome(
                    old(self)@,
                    cur_in.node as int,
                    cur_in.pos as int,
                    new_end as int,
                ),
            ensures
                wf_tree(self@),
                self@.payload == old(self)@.payload,
                old(self)@.nodes.len() <= self@.nodes.len(),
                cur.node < self@.nodes.len(),
                cur.pos <= new_end,
                goal == Ok::<(TreeModel, int, int), BuildError>(
                    (self@, cur.node as int, cur.pos as int),
                ),
            decreases fuel,
        {
            let ghost s_top = PhaseSt {
                t: self@,
                node: cur.node as int,
                pos: cur.pos as int,
                prev: prev_insert_idx as int,
            };

            // Canonicalize the active point: descend along whole edges as
            // long as the unconsumed tail covers them.
            loop
                invariant
                    wf_tree(self@),
                    self@ == s_top.t,
                    self@.payload == old(self)@.payload,
                    old(self)@.nodes.len() <= self@.nodes.len(),
                    new_end < self@.payload.len(),
                    cur.node < self@.nodes.len(),
                    cur.pos <= new_end,
                    canon(self@, cur.node as int, cur.pos as int, new_end as int) == canon(
                        s_top.t,
                        s_top.node,
                        s_top.pos,
                        new_end as int,
                    ),
                    goal == phase_run(s_top, new_end as int, fuel as nat),
                    goal == phase_outcome(
                        old(self)@,
                        cur_in.node as int,
                        cur_in.pos as int,
                        new_end as int,
                    ),
                ensures
                    self@ == s_top.t,
                    cur.node < self@.nodes.len(),
                    cur.pos <= new_end,
                    canon(s_top.t, s_top.node, s_top.pos, new_end as int) == Some(
                        (cur.node as int, cur.pos as int),
                    ),
                decreases new_end - cur.pos,
            {
                if cur.pos >= new_end {
                    break;
                }
                let link_ch = self.payload[cur.pos];
                let c = self.get_child(cur.node, link_ch);
                if c.is_none() {
                    break;
                }
                match c.unpack() {
                    NodeRef::Leaf(_) => {
                        // Leaves absorb the rest of the string; no descent.
                        break;
                    },
                    NodeRef::Inner(idx) => {
                        proof {
                            assert(c@ == RefModel::Inner(idx as int));
                        }
                        if idx >= self.nodes.len() {
                            proof {
                                assert(canon(s_top.t, s_top.node, s_top.pos, new_end as int)
                                    is None);
                                assert(phase_step(s_top, new_end as int) == Step::Fail(
                                    BuildError::Inconsistency,
                                ));
                            }
                            return Err(BuildError::Inconsistency);
                        }
                        let (b, e) = self.get_label(idx);
                        if (e as u64) > (b as u64) + ((new_end - cur.pos) as u64) {
                            // The label outruns the tail: the match ends
                            // inside this edge.
                            break;
                        }
                        if e <= b {
                            // An empty edge label: descent would not
                            // advance.
                            proof {
                                assert(canon(s_top.t, s_top.node, s_top.pos, new_end as int)
                                    is None);
                                assert(phase_step(s_top, new_end as int) == Step::Fail(
                                    BuildError::Inconsistency,
                                ));
                            }
                            return Err(BuildError::Inconsistency);
                        }
                        proof {
                            assert(canon(self@, cur.node as int, cur.pos as int, new_end as int)
                                == canon(
                                self@,
                                idx as int,
                                cur.pos + (e - b),
                                new_end as int,
                            ));
                        }
                        cur.node = idx;
                        cur.pos = cur.pos + (e - b);
                    },
                }
            }

            let ghost node_c = cur.node as int;
            let ghost pos_c = cur.pos as int;

            // Decide whether the new byte is already implicitly present.
            let insert_node_idx: usize;
            if cur.pos == new_end {
                let c = self.get_child(cur.node, new_ch);
                if !c.is_none() {
                    // Already there: the phase stops here (rule 3).
                    proof {
                        assert(phase_step(s_top, new_end as int) == Step::Stop(node_c, pos_c));
                    }
                    break;
                }
                // Attach the new leaf right below the active node.
                insert_node_idx = cur.node;
            } else {
                // Mid-edge: find the byte the edge continues with at the
                // depth of the new byte.
                let edge_select_ch = self.payload[cur.pos];
                let edge_ref = self.get_child(cur.node, edge_select_ch);
                if edge_ref.is_none() {
                    // The pending suffix should select an edge here.
                    proof {
                        assert(phase_step(s_top, new_end as int) == Step::Fail(
                            BuildError::Inconsistency,
                        ));
                    }
                    return Err(BuildError::Inconsistency);
                }
                let edge_label_begin: usize;
                match edge_ref.unpack() {
                    NodeRef::Leaf(p) => {
                        edge_label_begin = p;
                    },
                    NodeRef::Inner(i) => {
                        proof {
                            assert(edge_ref@ == RefModel::Inner(i as int));
                        }
                        if i >= self.nodes.len() {
                            proof {
                                assert(phase_step(s_top, new_end as int) == Step::Fail(
                                    BuildError::Inconsistency,
                                ));
                            }
                            return Err(BuildError::Inconsistency);
                        }
                        let (b, _e) = self.get_label(i);
                        edge_label_begin = b;
                    },
                }
                let rem = new_end - cur.pos;
                if (edge_label_begin as u64) + (rem as u64) >= (self.payload.len() as u64) {
                    // The edge label points past the payload.
                    proof {
                        assert(phase_step(s_top, new_end as int) == Step::Fail(
                            BuildError::Inconsistency,
                        ));
                    }
                    return Err(BuildError::Inconsistency);
                }
                let cur_label_pos = edge_label_begin + rem;
                let cur_label_ch = self.payload[cur_label_pos];
                if new_ch == cur_label_ch {
                    // The edge already continues with the new byte (rule 3).
                    proof {
                        assert(phase_step(s_top, new_end as int) == Step::Stop(node_c, pos_c));
                    }
                    break;
                }
                // A true mismatch: split the edge.  The new node takes the
                // matched prefix of the label and becomes the insertion
                // point; the old target is re-homed under it.
                if self.nodes.len() > MAX_IND {
                    return Err(BuildError::Capacity);
                }
                let new_node_idx = self.nodes.len();
                let mut n = Node::new(edge_label_begin, cur_label_pos, 1);
                let moved: PackedRef;
                match edge_ref.unpack() {
                    NodeRef::Leaf(_) => {
                        moved = PackedRef::from_leaf(cur_label_pos);
                    },
                    NodeRef::Inner(i) => {
                        // Narrow the re-homed inner node's label to start
                        // at the split point.
                        self.set_begin(i, cur_label_pos);
                        moved = PackedRef::from_inner(i);
                    },
                }
                proof {
                    assert(n.child@.len() == n@.child.len());
                    assert(n@.child.len() == 256);
                }
                n.child[cur_label_ch as usize] = moved;
                proof {
                    assert(n@.child =~= uniform_children(RefModel::Absent).update(
                        cur_label_ch as int,
                        moved@,
                    ));
                }
                self.push_node(n);
                self.set_child(cur.node, edge_select_ch, PackedRef::from_inner(new_node_idx));
                insert_node_idx = new_node_idx;
            }

            // Chain the previous insertion point's suffix link to this one
            // (the first chain write of a phase lands on the sentinel's
            // scratch slot, which nothing reads back), and attach the new
            // implicit leaf.
            self.set_suffix(prev_insert_idx, PackedRef::from_inner(insert_node_idx));
            self.set_child(insert_node_idx, new_ch, PackedRef::from_leaf(new_end));
            prev_insert_idx = insert_node_idx;

            // Follow the suffix link to the next, one-shorter pending
            // suffix; the cursor offset is left for the next
            // canonicalization to re-derive.
            let suf = self.get_suffix(cur.node);
            match suf.unpack() {
                NodeRef::Inner(idx) => {
                    if idx >= self.nodes.len() {
                        proof {
                            assert(follow_suffix(self@, node_c) is None);
                            assert(phase_step(s_top, new_end as int) == Step::Fail(
                                BuildError::Inconsistency,
                            ));
                        }
                        return Err(BuildError::Inconsistency);
                    }
                    cur.node = idx;
                },
                NodeRef::Leaf(_) => {
                    // Suffix links must lead to inner nodes.
                    proof {
                        assert(follow_suffix(self@, node_c) is None);
                        assert(phase_step(s_top, new_end as int) == Step::Fail(
                            BuildError::Inconsistency,
                        ));
                    }
                    return Err(BuildError::Inconsistency);
                },
            }

            proof {
                assert(phase_step(s_top, new_end as int) == Step::Go(
                    PhaseSt {
                        t: self@,
                        node: cur.node as int,
                        pos: pos_c,
                        prev: prev_insert_idx as int,
                    },
                ));
            }
            if fuel == 0 {
                return Err(BuildError::Inconsistency);
            }
            fuel = fuel - 1;
        }
        Ok(cur)
    }

    /// Builds the suffix tree of `payload`: allocates the two sentinel
    /// nodes, then runs one extension phase per payload byte, threading
    /// the cursor through.
    ///
    /// The result is pinned exactly by the spec-level construction: `Ok`
    /// holds the arena that `build_outcome` describes, and `Err` comes if
    /// and only if `build_outcome` fails, with the same error.  In
    /// particular a payload longer than `MAX_IND` is rejected as
    /// `Err(Capacity)` before anything is built, and a failed build hands
    /// back no partial tree.
    pub fn from(payload: &[u8]) -> (r: Result<SuffixTree, BuildError>)
        ensures
            (match r {
                Ok(st) => {
                    &&& build_outcome(payload@) == Ok::<TreeModel, BuildError>(st@)
                    &&& st@.payload == payload@
                    &&& wf_tree(st@)
                },
                Err(e) => build_outcome(payload@) == Err::<TreeModel, BuildError>(e),
            }),
    {
        if payload.len() > MAX_IND {
            return Err(BuildError::Capacity);
        }
        let mut st = SuffixTree { payload: vstd::slice::slice_to_vec(payload), nodes: Vec::new() };
        // The two sentinels: "top" at index 0, whose child slots all lead
        // to the root; the root at index 1, with a one-byte placeholder
        // label.
        st.push_node(Node::new_special(0, 0, 0, 1));
        st.push_node(Node::new(0, 1, 0));
        proof {
            assert(st@ =~~= init_tree(payload@));
        }
        let mut cur = Cursor { node: 1, pos: 0 };
        let mut i: usize = 0;
        while i < payload.len()
            invariant
                wf_tree(st@),
                st@.payload == payload@,
                i <= payload.len(),
                payload@.len() <= MAX_IND,
                cur.node < st@.nodes.len(),
                cur.pos <= i,
                build_from(payload@, i as int) == Ok::<(TreeModel, int, int), BuildError>(
                    (st@, cur.node as int, cur.pos as int),
                ),
            decreases payload.len() - i,
        {
            match st.update(cur, i) {
                Ok(c2) => {
                    cur = c2;
                },
                Err(e) => {
                    proof {
                        assert(build_from(payload@, i + 1) == Err::<
                            (TreeModel, int, int),
                            BuildError,
                        >(e));
                        lemma_build_err_persists(payload@, i + 1, payload@.len() as int);
                    }
                    return Err(e);
                },
            }
            proof {
                assert(build_from(payload@, i + 1) == Ok::<(TreeModel, int, int), BuildError>(
                    (st@, cur.node as int, cur.pos as int),
                ));
            }
            i += 1;
        }
        Ok(st)
    }

    /// Appends a node to the arena.
    fn push_node(&mut self, n: Node)
        ensures
            final(self)@ == spec_push(old(self)@, n@),
            final(self)@.nodes.len() == old(self)@.nodes.len() + 1,
    {
        self.nodes.push(n);
        proof {
            assert(final(self)@.nodes =~~= spec_push(old(self)@, n@).nodes);
        }
    }
}

} // verus!
