//! Suffix tree construction for a byte string, by Ukkonen's online
//! algorithm.
//!
//! The tree is a compressed trie of the suffixes of a payload: every edge
//! carries a half-open range of payload offsets as its label, leaves are
//! implicit (a starting offset whose label runs to the current end of the
//! string), and inner nodes live in an append-only arena.  Construction
//! threads an active point (a cursor) through one extension phase per
//! payload byte.
//!
//! Every executable function is specified against a mathematical model of
//! the arena: `SuffixTree::from` returns exactly the tree that the
//! spec-level construction `build_outcome` describes, so the whole build is
//! pinned down, including which inputs fail and with which error.

pub mod encoding;
pub mod node;
pub mod tree;
pub mod laws;
