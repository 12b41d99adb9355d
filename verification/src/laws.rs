use vstd::prelude::*;
use crate::encoding::{inner_ref, BuildError, RefModel, MAX_IND};
use crate::node::{uniform_children, NodeModel};
use crate::tree::{
    build_from, build_outcome, canon, child_ref, follow_suffix, init_tree, phase_fuel,
    phase_outcome, phase_run, phase_step, root_node, spec_finish, spec_push, spec_set_begin,
    spec_set_child, spec_set_suffix, spec_split, top_node, wf_tree, PhaseSt, Step, TreeModel,
};

verus! {

// ---------------------------------------------------------------------------
// Structural invariants of the arena.
//
// These are the shape facts that hold after every phase of a build: the
// two sentinels keep their fixed form (the suffix slot of the sentinel at
// index 0 excepted — it is the scratch slot the suffix-link chain seeds
// on), every real node's incoming edge label is a non-empty in-range span
// of the payload, every child slot is absent, an in-range leaf, or a real
// inner node, and every suffix link is absent or resolves to an inner
// node — never to a leaf.
// ---------------------------------------------------------------------------

/// A child slot may be empty, name a leaf whose label starts inside the
/// payload, or name a real (non-sentinel) inner node.
pub open spec fn valid_child(t: TreeModel, r: RefModel) -> bool {
    match r {
        RefModel::Absent => true,
        RefModel::Leaf(p) => 0 <= p < t.payload.len(),
        RefModel::Inner(i) => 2 <= i < t.nodes.len(),
    }
}

/// A suffix link may be absent (which the packed encoding reads as the
/// sentinel at index 0) or name an inner node; it never names a leaf.
pub open spec fn valid_suffix(t: TreeModel, r: RefModel) -> bool {
    match r {
        RefModel::Absent => true,
        RefModel::Leaf(p) => false,
        RefModel::Inner(i) => 1 <= i < t.nodes.len(),
    }
}

/// The structural invariants of the data model, as one predicate.
pub open spec fn valid_tree(t: TreeModel) -> bool {
    &&& 2 <= t.nodes.len()
    &&& t.nodes[0].begin == 0
    &&& t.nodes[0].end == 0
    &&& t.nodes[0].child == uniform_children(inner_ref(1))
    &&& t.nodes[1].begin == 0
    &&& t.nodes[1].end == 1
    &&& forall|n: int|
        2 <= n < t.nodes.len() ==> 0 <= (#[trigger] t.nodes[n]).begin < t.nodes[n].end
            <= t.payload.len()
    &&& forall|n: int, c: int|
        1 <= n < t.nodes.len() && 0 <= c < 256 ==> valid_child(
            t,
            #[trigger] t.nodes[n].child[c],
        )
    &&& forall|n: int|
        0 <= n < t.nodes.len() ==> valid_suffix(t, (#[trigger] t.nodes[n]).suffix)
}

/// Node `n` has at least two children: two distinct byte values whose
/// child slots are occupied.
pub open spec fn has_two_children(t: TreeModel, n: int) -> bool {
    exists|c1: int, c2: int|
        0 <= c1 < c2 < 256 && !((#[trigger] t.nodes[n].child[c1]) is Absent) && !((
        #[trigger] t.nodes[n].child[c2]) is Absent)
}

/// No unary inner nodes: every node except the two sentinels has at least
/// two children.  A split node is born with the re-homed old edge and
/// gains the fresh leaf in the same extension, and a child slot is never
/// emptied, so the property survives every phase.
pub open spec fn branching(t: TreeModel) -> bool {
    forall|n: int| 2 <= n < t.nodes.len() ==> has_two_children(t, n)
}

/// Why canonicalization stopped short of `new_end`: the edge out of the
/// stopping node is an implicit leaf, is absent, or is an inner edge whose
/// label outruns the remaining span.
pub open spec fn canon_stopped(t: TreeModel, node: int, pos: int, new_end: int) -> bool {
    match child_ref(t, node, t.payload[pos]) {
        RefModel::Absent => true,
        RefModel::Leaf(p) => true,
        RefModel::Inner(i) => 0 <= i < t.nodes.len() && t.nodes[i].end - t.nodes[i].begin
            > new_end - pos,
    }
}

/// On a structurally valid arena, canonicalization cannot fail: it lands
/// on a real node, never moves the offset backwards or past `new_end`,
/// and wherever it stops short the stopping condition holds.
pub proof fn lemma_canon_props(t: TreeModel, node: int, pos: int, new_end: int)
    requires
        valid_tree(t),
        0 <= node < t.nodes.len(),
        0 <= pos <= new_end,
        new_end <= t.payload.len(),
    ensures
        canon(t, node, pos, new_end) is Some,
        ({
            let (n2, p2) = canon(t, node, pos, new_end)->Some_0;
            &&& 0 <= n2 < t.nodes.len()
            &&& pos <= p2 <= new_end
            &&& (p2 < new_end ==> canon_stopped(t, n2, p2, new_end))
        }),
    decreases new_end - pos,
{
    if pos >= new_end {
    } else {
        match child_ref(t, node, t.payload[pos]) {
            RefModel::Absent => {},
            RefModel::Leaf(p) => {},
            RefModel::Inner(idx) => {
                if node == 0 {
                    assert(t.nodes[0].child[t.payload[pos] as int] == inner_ref(1));
                } else {
                    assert(valid_child(t, t.nodes[node].child[t.payload[pos] as int]));
                }
                let len = t.nodes[idx].end - t.nodes[idx].begin;
                if len > new_end - pos {
                } else {
                    assert(len >= 1);
                    lemma_canon_props(t, idx, pos + len, new_end);
                }
            },
        }
    }
}

/// The shared insertion tail keeps the arena valid: chaining the suffix
/// link of `prev` to `insert` and hanging a fresh leaf under `insert`
/// breaks no structural invariant, and the suffix link then followed from
/// `node` resolves, so the step goes on (or fails); it never stops here.
proof fn lemma_finish_shape(
    t: TreeModel,
    node: int,
    pos: int,
    prev: int,
    insert: int,
    new_end: int,
    new_ch: u8,
)
    requires
        wf_tree(t),
        valid_tree(t),
        1 <= node < t.nodes.len(),
        1 <= insert < t.nodes.len(),
        0 <= prev < t.nodes.len(),
        0 <= pos <= new_end,
        new_end < t.payload.len(),
        t.nodes[1].suffix is Absent,
        prev != 1,
        insert == 1 ==> node == 1,
        forall|n: int| 2 <= n < t.nodes.len() && n != insert ==> has_two_children(t, n),
        insert >= 2 ==> (exists|c0: int|
            0 <= c0 < 256 && c0 != new_ch as int && !((#[trigger] t.nodes[insert].child[c0])
                is Absent)),
    ensures
        (match spec_finish(t, node, pos, prev, insert, new_end, new_ch) {
            Step::Go(s2) => {
                &&& wf_tree(s2.t)
                &&& valid_tree(s2.t)
                &&& branching(s2.t)
                &&& s2.t.payload == t.payload
                &&& s2.t.nodes.len() == t.nodes.len()
                &&& 0 <= s2.node < s2.t.nodes.len()
                &&& s2.pos == pos
                &&& 0 <= s2.prev < s2.t.nodes.len()
                &&& s2.t.nodes[1].suffix is Absent
                &&& (s2.prev == 1 ==> s2.node == 0)
            },
            Step::Fail(e) => true,
            Step::Stop(a, b) => false,
        }),
{
    let t1 = spec_set_suffix(t, prev, inner_ref(insert));
    let t2 = spec_set_child(t1, insert, new_ch, RefModel::Leaf(new_end));
    assert(t2.nodes.len() == t.nodes.len());
    assert forall|n: int| 0 <= n < t2.nodes.len() implies (#[trigger] t2.nodes[n]).child.len()
        == 256 by {
        assert(t.nodes[n].child.len() == 256);
    }
    assert(wf_tree(t2));
    assert(t2.nodes[0].begin == 0 && t2.nodes[0].end == 0);
    assert(t2.nodes[0].child == uniform_children(inner_ref(1)));
    assert(t2.nodes[1].begin == 0 && t2.nodes[1].end == 1);
    assert forall|n: int| 2 <= n < t2.nodes.len() implies 0 <= (#[trigger] t2.nodes[n]).begin
        < t2.nodes[n].end <= t2.payload.len() by {
        assert(t2.nodes[n].begin == t.nodes[n].begin && t2.nodes[n].end == t.nodes[n].end);
    }
    assert forall|n: int, c: int| 1 <= n < t2.nodes.len() && 0 <= c < 256 implies valid_child(
        t2,
        #[trigger] t2.nodes[n].child[c],
    ) by {
        if n == insert && c == new_ch as int {
            assert(t2.nodes[n].child[c] == RefModel::Leaf(new_end));
        } else {
            assert(t2.nodes[n].child[c] == t.nodes[n].child[c]);
            assert(valid_child(t, t.nodes[n].child[c]));
        }
    }
    assert forall|n: int| 0 <= n < t2.nodes.len() implies valid_suffix(
        t2,
        (#[trigger] t2.nodes[n]).suffix,
    ) by {
        if n == prev {
            assert(t2.nodes[n].suffix == inner_ref(insert));
        } else {
            assert(t2.nodes[n].suffix == t.nodes[n].suffix);
            assert(valid_suffix(t, t.nodes[n].suffix));
        }
    }
    assert(valid_tree(t2));
    assert forall|n: int| 2 <= n < t2.nodes.len() implies has_two_children(t2, n) by {
        if n == insert {
            let c0 = choose|c0: int|
                0 <= c0 < 256 && c0 != new_ch as int && !((#[trigger] t.nodes[insert].child[c0])
                    is Absent);
            assert(t2.nodes[n].child[c0] == t.nodes[insert].child[c0]);
            assert(!(t2.nodes[n].child[new_ch as int] is Absent));
            if c0 < new_ch as int {
                assert(!(t2.nodes[n].child[c0] is Absent) && !(t2.nodes[n].child[new_ch as int]
                    is Absent));
            } else {
                assert(!(t2.nodes[n].child[new_ch as int] is Absent) && !(t2.nodes[n].child[c0]
                    is Absent));
            }
        } else {
            assert(has_two_children(t, n));
            let (c1, c2) = choose|c1: int, c2: int|
                0 <= c1 < c2 < 256 && !((#[trigger] t.nodes[n].child[c1]) is Absent) && !((
                #[trigger] t.nodes[n].child[c2]) is Absent);
            assert(t2.nodes[n].child[c1] == t.nodes[n].child[c1]);
            assert(t2.nodes[n].child[c2] == t.nodes[n].child[c2]);
        }
    }
    assert(branching(t2));
    assert(t2.nodes[1].suffix == t.nodes[1].suffix);
    if insert == 1 {
        assert(follow_suffix(t2, node) == Some(0int));
    }
    assert(valid_suffix(t2, t2.nodes[node].suffix));
    assert(follow_suffix(t2, node) is Some);
}

/// An edge split keeps the arena valid: narrowing the re-homed inner
/// node's label keeps it a non-empty in-range span (canonicalization
/// stopped precisely because the edge outran the remaining tail), and the
/// fresh node's label, children and suffix link are all in range.
#[verifier::rlimit(60)]
proof fn lemma_split_shape(
    t: TreeModel,
    node: int,
    pos: int,
    prev: int,
    new_end: int,
    new_ch: u8,
    esel: u8,
    eref: RefModel,
    lbegin: int,
)
    requires
        wf_tree(t),
        valid_tree(t),
        branching(t),
        1 <= node < t.nodes.len(),
        0 <= prev < t.nodes.len(),
        prev != 1,
        0 <= pos < new_end,
        new_end < t.payload.len(),
        t.nodes[1].suffix is Absent,
        esel == t.payload[pos],
        eref == child_ref(t, node, esel),
        (match eref {
            RefModel::Absent => false,
            RefModel::Leaf(p) => lbegin == p,
            RefModel::Inner(i) => {
                &&& 2 <= i < t.nodes.len()
                &&& lbegin == t.nodes[i].begin
                &&& t.nodes[i].end - t.nodes[i].begin > new_end - pos
            },
        }),
    ensures
        (match spec_split(t, node, pos, prev, new_end, new_ch, esel, eref, lbegin) {
            Step::Go(s2) => {
                &&& wf_tree(s2.t)
                &&& valid_tree(s2.t)
                &&& branching(s2.t)
                &&& s2.t.payload == t.payload
                &&& s2.t.nodes.len() == t.nodes.len() + 1
                &&& 0 <= s2.node < s2.t.nodes.len()
                &&& s2.pos == pos
                &&& 2 <= s2.prev < s2.t.nodes.len()
                &&& s2.t.nodes[1].suffix is Absent
            },
            Step::Fail(e) => true,
            Step::Stop(a, b) => a == node && b == pos,
        }),
{
    let clp = lbegin + (new_end - pos);
    if !(0 <= clp < t.payload.len()) {
    } else {
        let cch = t.payload[clp];
        if new_ch == cch {
        } else if t.nodes.len() > MAX_IND {
        } else {
            let newidx = t.nodes.len() as int;
            let moved = match eref {
                RefModel::Leaf(p) => RefModel::Leaf(clp),
                _ => eref,
            };
            let t1 = match eref {
                RefModel::Inner(i) => spec_set_begin(t, i, clp),
                _ => t,
            };
            let n = NodeModel {
                begin: lbegin,
                end: clp,
                suffix: inner_ref(1),
                child: uniform_children(RefModel::Absent).update(cch as int, moved),
            };
            let t2 = spec_push(t1, n);
            let t3 = spec_set_child(t2, node, esel, inner_ref(newidx));
            assert(t3.nodes.len() == t.nodes.len() + 1);
            assert(n.child.len() == 256);
            assert forall|m: int| 0 <= m < t3.nodes.len() implies (
            #[trigger] t3.nodes[m]).child.len() == 256 by {
                if m < t.nodes.len() {
                    assert(t.nodes[m].child.len() == 256);
                }
            }
            assert(wf_tree(t3));
            assert(t3.nodes[0].begin == 0 && t3.nodes[0].end == 0);
            assert(t3.nodes[0].child == uniform_children(inner_ref(1)));
            assert(t3.nodes[1].begin == 0 && t3.nodes[1].end == 1);
            assert forall|m: int| 2 <= m < t3.nodes.len() implies 0 <= (
            #[trigger] t3.nodes[m]).begin < t3.nodes[m].end <= t3.payload.len() by {
                if m == newidx {
                    assert(t3.nodes[m] == n);
                } else if eref is Inner && m == eref->Inner_0 {
                    assert(t3.nodes[m].begin == clp && t3.nodes[m].end == t.nodes[m].end);
                } else {
                    assert(t3.nodes[m].begin == t.nodes[m].begin && t3.nodes[m].end
                        == t.nodes[m].end);
                }
            }
            assert forall|m: int, c: int| 1 <= m < t3.nodes.len() && 0 <= c < 256 implies
                valid_child(t3, #[trigger] t3.nodes[m].child[c]) by {
                if m == node && c == esel as int {
                    assert(t3.nodes[m].child[c] == inner_ref(newidx));
                } else if m == newidx {
                    assert(t3.nodes[m].child[c] == n.child[c]);
                    if c == cch as int {
                        assert(n.child[c] == moved);
                    } else {
                        assert(n.child[c] == RefModel::Absent);
                    }
                } else {
                    assert(t3.nodes[m].child[c] == t.nodes[m].child[c]);
                    assert(valid_child(t, t.nodes[m].child[c]));
                }
            }
            assert forall|m: int| 0 <= m < t3.nodes.len() implies valid_suffix(
                t3,
                (#[trigger] t3.nodes[m]).suffix,
            ) by {
                if m == newidx {
                    assert(t3.nodes[m].suffix == inner_ref(1));
                } else {
                    assert(t3.nodes[m].suffix == t.nodes[m].suffix);
                    assert(valid_suffix(t, t.nodes[m].suffix));
                }
            }
            assert(valid_tree(t3));
            assert forall|m: int| 2 <= m < t3.nodes.len() && m != newidx implies
                has_two_children(t3, m) by {
                assert(has_two_children(t, m));
                let (c1, c2) = choose|c1: int, c2: int|
                    0 <= c1 < c2 < 256 && !((#[trigger] t.nodes[m].child[c1]) is Absent) && !((
                    #[trigger] t.nodes[m].child[c2]) is Absent);
                if m == node {
                    // The slot keyed `esel` may have been overwritten, but
                    // only with the new inner node, which occupies it too.
                    assert(!(t3.nodes[m].child[c1] is Absent));
                    assert(!(t3.nodes[m].child[c2] is Absent));
                } else {
                    assert(t3.nodes[m].child[c1] == t.nodes[m].child[c1]);
                    assert(t3.nodes[m].child[c2] == t.nodes[m].child[c2]);
                }
            }
            assert(!(t3.nodes[newidx].child[cch as int] is Absent));
            assert(cch as int != new_ch as int);
            assert(t3.nodes[1].suffix == t.nodes[1].suffix);
            lemma_finish_shape(t3, node, pos, prev, newidx, new_end, new_ch);
        }
    }
}

/// One phase preserves the structural invariants: whatever a sequence of
/// extensions does to a valid arena, a successful phase leaves the arena
/// valid, the payload untouched and the arena no smaller, and hands on an
/// in-range cursor.
pub proof fn lemma_phase_preserves_valid(s: PhaseSt, new_end: int, fuel: nat)
    requires
        wf_tree(s.t),
        valid_tree(s.t),
        branching(s.t),
        0 <= s.node < s.t.nodes.len(),
        0 <= s.pos <= new_end,
        new_end < s.t.payload.len(),
        0 <= s.prev < s.t.nodes.len(),
        s.t.nodes[1].suffix is Absent,
        s.prev == 1 ==> (s.node == 0 && s.pos == new_end),
    ensures
        (match phase_run(s, new_end, fuel) {
            Ok(out) => {
                &&& wf_tree(out.0)
                &&& valid_tree(out.0)
                &&& branching(out.0)
                &&& out.0.payload == s.t.payload
                &&& s.t.nodes.len() <= out.0.nodes.len()
                &&& 0 <= out.1 < out.0.nodes.len()
                &&& 0 <= out.2 <= new_end
                &&& out.0.nodes[1].suffix is Absent
            },
            Err(e) => true,
        }),
    decreases fuel,
{
    let t = s.t;
    lemma_canon_props(t, s.node, s.pos, new_end);
    if s.prev == 1 {
        // The suffix-link chain was last seeded at the root, which only
        // happens with the cursor handed to the sentinel at offset
        // `new_end`; from there the new byte is always found (every slot
        // of the sentinel leads to the root), so the phase stops at once
        // and the root's scratch-free suffix link is never rewritten.
        assert(canon(t, s.node, s.pos, new_end) == Some((0int, new_end)));
        assert(child_ref(t, 0, t.payload[new_end]) == inner_ref(1));
        assert(phase_step(s, new_end) == Step::Stop(0int, new_end));
    }
    let (node, pos) = canon(t, s.node, s.pos, new_end)->Some_0;
    let new_ch = t.payload[new_end];
    if pos == new_end {
        if !(child_ref(t, node, new_ch) is Absent) {
            assert(phase_step(s, new_end) == Step::Stop(node, pos));
        } else {
            assert(node != 0) by {
                if node == 0 {
                    assert(t.nodes[0].child[new_ch as int] == inner_ref(1));
                }
            }
            assert(s.prev != 1);
            if node >= 2 {
                assert(has_two_children(t, node));
                let (c1, c2) = choose|c1: int, c2: int|
                    0 <= c1 < c2 < 256 && !((#[trigger] t.nodes[node].child[c1]) is Absent)
                        && !((#[trigger] t.nodes[node].child[c2]) is Absent);
                if c1 != new_ch as int {
                    assert(!(t.nodes[node].child[c1] is Absent));
                } else {
                    assert(!(t.nodes[node].child[c2] is Absent));
                }
            }
            lemma_finish_shape(t, node, pos, s.prev, node, new_end, new_ch);
            match spec_finish(t, node, pos, s.prev, node, new_end, new_ch) {
                Step::Go(s2) => {
                    assert(phase_step(s, new_end) == Step::Go(s2));
                    if fuel > 0 {
                        lemma_phase_preserves_valid(s2, new_end, (fuel - 1) as nat);
                    }
                },
                Step::Fail(e) => {},
                Step::Stop(a, b) => {},
            }
        }
    } else {
        assert(canon_stopped(t, node, pos, new_end));
        let esel = t.payload[pos];
        let eref = child_ref(t, node, esel);
        assert(node != 0) by {
            if node == 0 {
                assert(t.nodes[0].child[esel as int] == inner_ref(1));
                assert(t.nodes[1].end - t.nodes[1].begin == 1);
            }
        }
        match eref {
            RefModel::Absent => {
                assert(phase_step(s, new_end) == Step::Fail(BuildError::Inconsistency));
            },
            RefModel::Leaf(p) => {
                lemma_split_shape(t, node, pos, s.prev, new_end, new_ch, esel, eref, p);
                match spec_split(t, node, pos, s.prev, new_end, new_ch, esel, eref, p) {
                    Step::Go(s2) => {
                        assert(phase_step(s, new_end) == Step::Go(s2));
                        if fuel > 0 {
                            lemma_phase_preserves_valid(s2, new_end, (fuel - 1) as nat);
                        }
                    },
                    Step::Fail(e) => {},
                    Step::Stop(a, b) => {
                        assert(phase_step(s, new_end) == Step::Stop(node, pos));
                    },
                }
            },
            RefModel::Inner(i) => {
                assert(valid_child(t, eref));
                let lb = t.nodes[i].begin;
                lemma_split_shape(t, node, pos, s.prev, new_end, new_ch, esel, eref, lb);
                match spec_split(
                    t,
                    node,
                    pos,
                    s.prev,
                    new_end,
                    new_ch,
                    esel,
                    eref,
                    lb,
                ) {
                    Step::Go(s2) => {
                        assert(phase_step(s, new_end) == Step::Go(s2));
                        if fuel > 0 {
                            lemma_phase_preserves_valid(s2, new_end, (fuel - 1) as nat);
                        }
                    },
                    Step::Fail(e) => {},
                    Step::Stop(a, b) => {
                        assert(phase_step(s, new_end) == Step::Stop(node, pos));
                    },
                }
            },
        }
    }
}

/// The structural invariants hold after every phase of a build: the
/// partial tree for any prefix of the payload is valid, with an in-range
/// cursor.
pub proof fn lemma_build_invariants(payload: Seq<u8>, i: int)
    requires
        0 <= i <= payload.len(),
        payload.len() <= MAX_IND,
    ensures
        (match build_from(payload, i) {
            Ok(out) => {
                &&& wf_tree(out.0)
                &&& valid_tree(out.0)
                &&& branching(out.0)
                &&& out.0.payload == payload
                &&& 0 <= out.1 < out.0.nodes.len()
                &&& 0 <= out.2 <= i
                &&& out.0.nodes[1].suffix is Absent
            },
            Err(e) => true,
        }),
    decreases i,
{
    if i <= 0 {
        let t0 = init_tree(payload);
        assert(t0.nodes[0] == top_node());
        assert(t0.nodes[1] == root_node());
        assert(wf_tree(t0));
        assert(valid_tree(t0));
        assert(branching(t0));
    } else {
        lemma_build_invariants(payload, i - 1);
        match build_from(payload, i - 1) {
            Ok(out) => {
                lemma_phase_preserves_valid(
                    PhaseSt { t: out.0, node: out.1, pos: out.2, prev: 0 },
                    i - 1,
                    phase_fuel(i - 1),
                );
            },
            Err(e) => {},
        }
    }
}

/// Every successful build leaves a structurally valid tree: non-empty
/// in-range edge labels on every real node, in-range child references,
/// suffix links that are absent or resolve to an inner node — never to a
/// leaf — and no unary inner nodes (every node but the sentinels keeps at
/// least two children).  The root's suffix link in particular stays
/// absent: it is never turned into, nor followed as, a real link — a
/// suffix-link walk ends at the root.  These are the data-model
/// invariants, shown to survive the whole construction.
pub proof fn lemma_build_outcome_valid(payload: Seq<u8>)
    ensures
        build_outcome(payload) is Ok ==> {
            &&& valid_tree(build_outcome(payload)->Ok_0)
            &&& branching(build_outcome(payload)->Ok_0)
            &&& build_outcome(payload)->Ok_0.nodes[1].suffix is Absent
            &&& build_outcome(payload)->Ok_0.payload == payload
        },
{
    if payload.len() <= MAX_IND {
        lemma_build_invariants(payload, payload.len() as int);
    }
}

/// Determinism: the construction outcome is a function of the payload
/// bytes alone, so byte-identical payloads yield identical arenas — the
/// same node count and the same field values — or the identical error.
/// `SuffixTree::from` is pinned to this outcome by its contract, so two
/// builds can never disagree.
pub proof fn lemma_build_deterministic(p1: Seq<u8>, p2: Seq<u8>)
    requires
        p1 == p2,
    ensures
        build_outcome(p1) == build_outcome(p2),
        build_outcome(p1) is Ok ==> build_outcome(p1)->Ok_0.nodes == build_outcome(
            p2,
        )->Ok_0.nodes,
{
}

/// Boundary: the empty payload builds successfully, and the finished
/// arena holds exactly the two sentinel nodes with no leaf reference
/// anywhere — zero leaves.
pub proof fn lemma_empty_input(payload: Seq<u8>)
    requires
        payload.len() == 0,
    ensures
        build_outcome(payload) == Ok::<TreeModel, BuildError>(init_tree(payload)),
        init_tree(payload).nodes.len() == 2,
        forall|n: int, c: int|
            0 <= n < 2 && 0 <= c < 256 ==> !((#[trigger] init_tree(payload).nodes[n].child[c])
                is Leaf),
{
    assert(build_from(payload, 0) == Ok::<(TreeModel, int, int), BuildError>(
        (init_tree(payload), 1int, 0int),
    ));
}

/// Boundary: a one-byte payload builds successfully into the two
/// sentinels plus exactly one leaf, hanging directly under the root and
/// keyed by that byte; its label runs from offset 0 to the end of the
/// string, i.e. it spells the whole payload.
pub proof fn lemma_single_byte(payload: Seq<u8>)
    requires
        payload.len() == 1,
    ensures
        build_outcome(payload) is Ok,
        ({
            let t = build_outcome(payload)->Ok_0;
            &&& t.nodes.len() == 2
            &&& t.nodes[1].child[payload[0] as int] == RefModel::Leaf(0)
            &&& forall|c: int|
                0 <= c < 256 && c != payload[0] as int ==> (#[trigger] t.nodes[1].child[c])
                    == RefModel::Absent
            &&& forall|c: int|
                0 <= c < 256 ==> !((#[trigger] t.nodes[0].child[c]) is Leaf)
        }),
{
    let p0 = payload[0];
    let t0 = init_tree(payload);
    let s0 = PhaseSt { t: t0, node: 1, pos: 0, prev: 0 };
    assert(canon(t0, 1, 0, 0) == Some((1int, 0int)));
    assert(child_ref(t0, 1, p0) is Absent);
    let t1 = spec_set_suffix(t0, 0, inner_ref(1));
    let t2 = spec_set_child(t1, 1, p0, RefModel::Leaf(0));
    assert(t2.nodes[1].suffix == RefModel::Absent);
    assert(follow_suffix(t2, 1) == Some(0int));
    let s1 = PhaseSt { t: t2, node: 0, pos: 0, prev: 1 };
    assert(phase_step(s0, 0) == Step::Go(s1));
    assert(canon(t2, 0, 0, 0) == Some((0int, 0int)));
    assert(child_ref(t2, 0, p0) == RefModel::Inner(1));
    assert(phase_step(s1, 0) == Step::Stop(0int, 0int));
    assert(phase_run(s1, 0, 1) == Ok::<(TreeModel, int, int), BuildError>((t2, 0int, 0int)));
    assert(phase_run(s0, 0, 2) == Ok::<(TreeModel, int, int), BuildError>((t2, 0int, 0int)));
    assert(build_from(payload, 0) == Ok::<(TreeModel, int, int), BuildError>((t0, 1int, 0int)));
    assert(build_from(payload, 1) == phase_outcome(t0, 1, 0, 0));
    assert(build_outcome(payload) == Ok::<TreeModel, BuildError>(t2));
}

} // verus!
