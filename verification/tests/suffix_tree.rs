use suffix_tree::encoding::{BuildError, NodeRef, PackedPos, PackedRef};
use suffix_tree::node::{Cursor, Node};
use suffix_tree::tree::SuffixTree;

/// Collects every leaf of the finished tree as a pair of the suffix it
/// spells (all edge labels from the root down, the leaf's own label read
/// to the end of the payload) and its starting offset in the payload.
fn collect_leaves_rec(st: &SuffixTree, idx: usize, prefix: &[u8], out: &mut Vec<(Vec<u8>, usize)>) {
    for c in 0..256usize {
        let r = st.nodes[idx].child[c];
        if r.is_none() {
            continue;
        }
        match r.unpack() {
            NodeRef::Leaf(pos) => {
                let mut lab = prefix.to_vec();
                lab.extend_from_slice(&st.payload[pos..st.payload.len()]);
                out.push((lab, pos - prefix.len()));
            }
            NodeRef::Inner(j) => {
                let b = st.nodes[j].begin.unpack();
                let e = st.nodes[j].end.unpack();
                let mut lab = prefix.to_vec();
                lab.extend_from_slice(&st.payload[b..e]);
                collect_leaves_rec(st, j, &lab, out);
            }
        }
    }
}

fn collect_leaves(st: &SuffixTree) -> Vec<(Vec<u8>, usize)> {
    let mut out = Vec::new();
    collect_leaves_rec(st, 1, &[], &mut out);
    out
}

/// Finds the inner node whose concatenated root-path label equals `want`,
/// if any.
fn find_inner_by_label(st: &SuffixTree, idx: usize, prefix: &[u8], want: &[u8]) -> Option<usize> {
    if prefix == want && idx != 1 {
        return Some(idx);
    }
    for c in 0..256usize {
        let r = st.nodes[idx].child[c];
        if r.is_none() {
            continue;
        }
        if let NodeRef::Inner(j) = r.unpack() {
            let b = st.nodes[j].begin.unpack();
            let e = st.nodes[j].end.unpack();
            let mut lab = prefix.to_vec();
            lab.extend_from_slice(&st.payload[b..e]);
            if let Some(hit) = find_inner_by_label(st, j, &lab, want) {
                return Some(hit);
            }
        }
    }
    None
}

fn child_count(st: &SuffixTree, idx: usize) -> usize {
    (0..256usize).filter(|&c| !st.nodes[idx].child[c].is_none()).count()
}

fn all_suffixes(payload: &[u8]) -> Vec<Vec<u8>> {
    (0..payload.len()).map(|i| payload[i..].to_vec()).collect()
}

#[test]
fn packed_pos_round_trip() {
    assert_eq!(PackedPos::from(0).unpack(), 0);
    assert_eq!(PackedPos::from(12345).unpack(), 12345);
    assert_eq!(PackedPos::from(0xffff_ffff).unpack(), 0xffff_ffff);
}

#[test]
fn packed_ref_round_trip() {
    assert_eq!(PackedRef::from_inner(5).unpack(), NodeRef::Inner(5));
    assert_eq!(PackedRef::from_leaf(5).unpack(), NodeRef::Leaf(5));
    assert_eq!(PackedRef::from_leaf(0).unpack(), NodeRef::Leaf(0));
    assert_eq!(PackedRef::from_inner(0x7fff_ffff).unpack(), NodeRef::Inner(0x7fff_ffff));
    assert!(PackedRef::from_inner(0).is_none());
    assert!(!PackedRef::from_leaf(0).is_none());
    assert!(!PackedRef::from_inner(7).is_none());
}

#[test]
fn node_label_len() {
    let n = Node::new(3, 7, 1);
    assert_eq!(n.label_len(), 4);
    assert_eq!(n.suffix.unpack(), NodeRef::Inner(1));
    assert!(n.child.iter().all(|r| r.is_none()));
}

#[test]
fn empty_input_two_sentinels_no_leaves() {
    let st = SuffixTree::from(b"").unwrap();
    assert_eq!(st.nodes.len(), 2);
    assert_eq!(collect_leaves(&st).len(), 0);
    // Every slot of the top sentinel leads to the root.
    for c in 0..256usize {
        assert_eq!(st.nodes[0].child[c].unpack(), NodeRef::Inner(1));
    }
}

#[test]
fn single_byte_one_leaf_under_root() {
    let st = SuffixTree::from(b"a").unwrap();
    assert_eq!(st.nodes.len(), 2);
    let leaves = collect_leaves(&st);
    assert_eq!(leaves, vec![(b"a".to_vec(), 0)]);
    assert_eq!(st.nodes[1].child[b'a' as usize].unpack(), NodeRef::Leaf(0));
}

#[test]
fn banana_has_exactly_the_seven_suffixes() {
    let payload = b"banana$";
    let st = SuffixTree::from(payload).unwrap();
    let mut got: Vec<Vec<u8>> = collect_leaves(&st).into_iter().map(|(lab, _)| lab).collect();
    got.sort();
    let mut want = all_suffixes(payload);
    want.sort();
    assert_eq!(got, want);
    // Each suffix appears exactly once.
    for w in got.windows(2) {
        assert_ne!(w[0], w[1]);
    }
}

#[test]
fn banana_shared_prefix_node_ana() {
    let payload = b"banana$";
    let st = SuffixTree::from(payload).unwrap();
    let idx = find_inner_by_label(&st, 1, &[], b"ana").expect("inner node \"ana\" must exist");
    assert!(child_count(&st, idx) >= 2);
}

#[test]
fn leaf_count_one_per_offset() {
    for payload in [&b"banana$"[..], &b"mississippi$"[..], &b"abcab#"[..], &b"x$"[..]] {
        let st = SuffixTree::from(payload).unwrap();
        let mut offsets: Vec<usize> = collect_leaves(&st).into_iter().map(|(_, o)| o).collect();
        offsets.sort();
        let want: Vec<usize> = (0..payload.len()).collect();
        assert_eq!(offsets, want);
    }
}

#[test]
fn leaf_paths_spell_their_suffix() {
    // Holds with or without a unique terminator: every leaf that exists
    // spells the suffix at its offset.
    for payload in [&b"banana$"[..], &b"mississippi$"[..], &b"aaaa$"[..], &b"banana"[..]] {
        let st = SuffixTree::from(payload).unwrap();
        for (lab, off) in collect_leaves(&st) {
            assert_eq!(lab, payload[off..].to_vec());
        }
    }
}

#[test]
fn no_unary_inner_nodes() {
    for payload in [&b"banana$"[..], &b"mississippi$"[..], &b"abracadabra$"[..]] {
        let st = SuffixTree::from(payload).unwrap();
        // Indices 0 and 1 are the sentinels; every later node is a real
        // inner node and must keep at least two children.
        for idx in 2..st.nodes.len() {
            assert!(child_count(&st, idx) >= 2, "inner node {} is unary", idx);
        }
    }
}

#[test]
fn suffix_links_reach_root() {
    for payload in [&b"banana$"[..], &b"mississippi$"[..], &b"abracadabra$"[..]] {
        let st = SuffixTree::from(payload).unwrap();
        let n = payload.len();
        for idx in 2..st.nodes.len() {
            let mut j = idx;
            let mut steps = 0usize;
            while j > 1 {
                match st.nodes[j].suffix.unpack() {
                    NodeRef::Inner(s) => j = s,
                    NodeRef::Leaf(_) => panic!("suffix link of {} is a leaf", j),
                }
                steps += 1;
                assert!(steps <= n, "suffix chain from {} does not reach the root", idx);
            }
            // The chain ends at the root and stops there.
            assert_eq!(j, 1);
        }
    }
}

#[test]
fn sorted_leaf_labels_equal_sorted_suffixes() {
    for payload in [&b"banana$"[..], &b"mississippi$"[..], &b"abcabcabc$"[..]] {
        let st = SuffixTree::from(payload).unwrap();
        let mut got: Vec<Vec<u8>> = collect_leaves(&st).into_iter().map(|(lab, _)| lab).collect();
        got.sort();
        let mut want = all_suffixes(payload);
        want.sort();
        assert_eq!(got, want);
    }
}

#[test]
fn determinism_identical_payloads_identical_arenas() {
    let a = SuffixTree::from(b"bananas$").unwrap();
    let b = SuffixTree::from(b"bananas$").unwrap();
    assert_eq!(a.nodes.len(), b.nodes.len());
    for i in 0..a.nodes.len() {
        assert_eq!(a.nodes[i].begin.unpack(), b.nodes[i].begin.unpack());
        assert_eq!(a.nodes[i].end.unpack(), b.nodes[i].end.unpack());
        assert_eq!(a.nodes[i].suffix.unpack(), b.nodes[i].suffix.unpack());
        for c in 0..256usize {
            assert_eq!(a.nodes[i].child[c].unpack(), b.nodes[i].child[c].unpack());
        }
    }
}

#[test]
fn corrupt_suffix_link_is_reported() {
    // A hand-built arena whose root carries a leaf as its suffix link:
    // the first true extension must follow it and fail.
    let mut root = Node::new(0, 1, 0);
    root.suffix = PackedRef::from_leaf(5);
    let st0 = SuffixTree { payload: b"ab".to_vec(), nodes: vec![Node::new_special(0, 0, 0, 1), root] };
    let mut st = st0;
    let r = st.update(Cursor { node: 1, pos: 0 }, 0);
    assert_eq!(r, Err(BuildError::Inconsistency));
}

#[test]
fn update_threads_cursor_like_the_builder() {
    // Driving the extension routine by hand, one byte at a time, lands on
    // the same arena that the builder produces.
    let payload = b"banana$";
    let built = SuffixTree::from(payload).unwrap();
    let mut st = SuffixTree {
        payload: payload.to_vec(),
        nodes: vec![Node::new_special(0, 0, 0, 1), Node::new(0, 1, 0)],
    };
    let mut cur = Cursor { node: 1, pos: 0 };
    for i in 0..payload.len() {
        cur = st.update(cur, i).unwrap();
    }
    assert_eq!(st.nodes.len(), built.nodes.len());
    for i in 0..st.nodes.len() {
        assert_eq!(st.nodes[i].begin.unpack(), built.nodes[i].begin.unpack());
        assert_eq!(st.nodes[i].end.unpack(), built.nodes[i].end.unpack());
        for c in 0..256usize {
            assert_eq!(st.nodes[i].child[c].unpack(), built.nodes[i].child[c].unpack());
        }
    }
}

#[test]
fn root_suffix_link_stays_absent() {
    for payload in [&b""[..], &b"a"[..], &b"banana$"[..], &b"mississippi$"[..]] {
        let st = SuffixTree::from(payload).unwrap();
        assert!(st.nodes[1].suffix.is_none());
    }
}
