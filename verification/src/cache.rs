//! The interning cache: deduplicates green subtrees by structural identity.
//!
//! The cache maps a structural fingerprint — a hash of a node's kind and its
//! children's shallow identities, or of a token's kind and text — to the trees
//! already built under it, with exact structural equality as the fallback on
//! hash collision. Interning an already-seen value hands back a new handle to
//! the shared allocation instead of building a fresh one; the contract is the
//! same either way, because a cache hit is structurally equal to what would
//! have been built. Entries are never removed; the cache lives for one build
//! session and is discarded with it.

use vstd::prelude::*;

use std::collections::HashMap;

use crate::green::{
    elems_view, node_data_eq, token_data_eq, wf_elems, GreenElement, GreenNode,
    GreenNodeData, GreenToken, GreenTokenData, SyntaxKind,
};
use crate::model::{interned, texts_of, wf_view, GreenView};

verus! {

/// One step of the fingerprint mix: rotate and fold the next quantity in.
fn mix(h: u64, x: u64) -> u64 {
    ((h << 7) | (h >> 57)) ^ x
}

/// Structural fingerprint of a node shape: its kind and, for each child, the
/// tag and kind of each child. Collisions are harmless — lookups fall
/// back to exact equality.
fn node_fingerprint(kind: SyntaxKind, children: &Vec<GreenElement>) -> u64 {
    let mut h: u64 = mix(0x6a09e667f3bcc908, kind.0 as u64);
    let mut i: usize = 0;
    while i < children.len()
        decreases children.len() - i,
    {
        match &children[i] {
            GreenElement::Node(n) => {
                h = mix(h, 1);
                h = mix(h, n.data().kind().0 as u64);
            },
            GreenElement::Token(t) => {
                h = mix(h, 2);
                h = mix(h, t.data().kind().0 as u64);
            },
        }
        i = i + 1;
    }
    h
}

/// Structural fingerprint of a token: its kind and text bytes.
fn token_fingerprint(kind: SyntaxKind, text: &str) -> u64 {
    let mut h: u64 = mix(0xbb67ae8584caa73b, kind.0 as u64);
    let bytes = text.as_bytes();
    let mut i: usize = 0;
    while i < bytes.len()
        decreases bytes.len() - i,
    {
        h = mix(h, bytes[i] as u64);
        i = i + 1;
    }
    h
}

/// Session-scoped interning cache over green nodes and tokens.
pub struct NodeCache {
    nodes: HashMap<u64, Vec<GreenNode>>,
    tokens: HashMap<u64, Vec<GreenToken>>,
}

impl NodeCache {
    /// An empty cache.
    pub fn new() -> NodeCache {
        NodeCache { nodes: HashMap::new(), tokens: HashMap::new() }
    }

    /// Produces the node of this kind over these children: a handle to a
    /// structurally identical node interned before, if there is one, else a
    /// freshly built and newly interned one. Either way the result is the
    /// node `interned(kind, ...)` describes, and it is well formed.
    #[verifier::loop_isolation(false)]
    pub fn intern_node(&mut self, kind: SyntaxKind, children: Vec<GreenElement>) -> (n: GreenNode)
        requires
            wf_elems(children@),
            texts_of(elems_view(children@)).len() <= usize::MAX,
        ensures
            n@ == interned(kind, elems_view(children@)),
            wf_view(n@),
    {
        let fp = node_fingerprint(kind, &children);
        let ghost cvs = elems_view(children@);
        let data = GreenNodeData::new(kind, children);
        match self.nodes.get(&fp) {
            Some(bucket) => {
                let mut i: usize = 0;
                while i < bucket.len()
                    invariant
                        data@ == interned(kind, cvs),
                        wf_view(data@),
                        i <= bucket.len(),
                    decreases bucket.len() - i,
                {
                    if node_data_eq(bucket[i].data(), &data) {
                        return bucket[i].clone();
                    }
                    i = i + 1;
                }
            },
            None => {},
        }
        let node = GreenNode::from_data(std::sync::Arc::new(data));
        let mut bucket = match self.nodes.remove(&fp) {
            Some(b) => b,
            None => Vec::new(),
        };
        bucket.push(node.clone());
        self.nodes.insert(fp, bucket);
        node
    }

    /// Produces the token of this kind and text: a handle to a structurally
    /// identical token interned before, if there is one, else a fresh one.
    #[verifier::loop_isolation(false)]
    pub fn intern_token(&mut self, kind: SyntaxKind, text: &str) -> (t: GreenToken)
        ensures
            t@ == (GreenView::Token { kind, text: text@ }),
    {
        let fp = token_fingerprint(kind, text);
        let data = GreenTokenData::new(kind, text.to_owned());
        match self.tokens.get(&fp) {
            Some(bucket) => {
                let mut i: usize = 0;
                while i < bucket.len()
                    invariant
                        data@ == (GreenView::Token { kind, text: text@ }),
                        i <= bucket.len(),
                    decreases bucket.len() - i,
                {
                    if token_data_eq(bucket[i].data(), &data) {
                        return bucket[i].clone();
                    }
                    i = i + 1;
                }
            },
            None => {},
        }
        let token = GreenToken { ptr: std::sync::Arc::new(data) };
        let mut bucket = match self.tokens.remove(&fp) {
            Some(b) => b,
            None => Vec::new(),
        };
        bucket.push(token.clone());
        self.tokens.insert(fp, bucket);
        token
    }
}

} // verus!
