//! The builder: a stack machine assembling a green tree from a stream of
//! token / start-node / finish-node events.
//!
//! The builder keeps one flat vector of the children produced so far and a
//! stack of open frames, each a pending kind together with the index where
//! that frame's children start. `finish_node` splits the flat vector at the
//! top frame's start, asks the interning cache for a node over the suffix, and
//! pushes that node back as a single element. A [`Checkpoint`] remembers the
//! current child count so that a new frame boundary can be inserted
//! retroactively: children pushed after the checkpoint become children of the
//! later-started node, children pushed before it stay where they are.

use vstd::prelude::*;

use crate::cache::NodeCache;
use crate::green::{
    elems_view, lemma_elems_view_index, lemma_elems_view_len, lemma_elems_view_push,
    lemma_elems_view_subrange, lemma_wf_elems_push, lemma_wf_elems_subrange, wf_elems,
    GreenElement, GreenNode, SyntaxKind, TreeError,
};
use crate::model::{
    interned, is_node, lemma_texts_of_push, lemma_texts_of_singleton,
    lemma_texts_of_split, text_of, texts_of, wf_view, GreenView,
};

verus! {

/// An opaque marker for a position in the current frame: the child count at
/// the moment it was captured.
#[derive(Debug, Clone, Copy, PartialEq, Eq, Structural)]
pub struct Checkpoint(pub usize);

/// Stack-based assembler of green trees.
pub struct GreenNodeBuilder {
    cache: NodeCache,
    parents: Vec<(SyntaxKind, usize)>,
    children: Vec<GreenElement>,
}

impl GreenNodeBuilder {
    /// The open frames: each pending kind with the index in `children` where
    /// its children start, outermost first.
    pub closed spec fn frames(&self) -> Seq<(SyntaxKind, usize)> {
        self.parents@
    }

    /// The children produced so far, as ghost trees, flat across all frames.
    pub closed spec fn elems(&self) -> Seq<GreenView> {
        elems_view(self.children@)
    }

    /// Full fidelity measure: the concatenation of every token text pushed so
    /// far, in order. Every operation but `token` leaves it unchanged.
    pub open spec fn text(&self) -> Seq<char> {
        texts_of(self.elems())
    }

    /// The builder's invariant: children are well formed, their total text
    /// fits a `usize`, and frame starts are within bounds and nested in
    /// order.
    pub closed spec fn wf(&self) -> bool {
        &&& wf_elems(self.children@)
        &&& self.text().len() <= usize::MAX
        &&& forall|j: int|
            0 <= j < self.parents@.len() ==> (#[trigger] self.parents@[j]).1 <= self.children@.len()
        &&& forall|j: int, k: int|
            0 <= j <= k < self.parents@.len() ==> (#[trigger] self.parents@[j]).1 <= (
            #[trigger] self.parents@[k]).1
    }

    /// A fresh builder with no children and no open frame.
    pub fn new() -> (b: GreenNodeBuilder)
        ensures
            b.wf(),
            b.frames().len() == 0,
            b.elems().len() == 0,
            b.text() == Seq::<char>::empty(),
    {
        let b = GreenNodeBuilder { cache: NodeCache::new(), parents: Vec::new(), children: Vec::new() };
        proof {
            lemma_elems_view_len(b.children@);
        }
        b
    }

    /// A marker for the current position of the current frame; hand it to
    /// `start_node_at` to wrap everything pushed after this moment into a
    /// node of its own.
    pub fn checkpoint(&self) -> (c: Checkpoint)
        ensures
            c.0 == self.elems().len(),
    {
        proof {
            lemma_elems_view_len(self.children@);
        }
        Checkpoint(self.children.len())
    }

    /// Appends one token to the current frame. The only change to the
    /// builder's text is that the token's text is appended.
    pub fn token(&mut self, kind: SyntaxKind, text: &str)
        requires
            old(self).wf(),
            old(self).text().len() + text@.len() <= usize::MAX,
        ensures
            final(self).wf(),
            final(self).frames() == old(self).frames(),
            final(self).elems() == old(self).elems().push(
                GreenView::Token { kind, text: text@ },
            ),
            final(self).text() == old(self).text() + text@,
    {
        let tok = self.cache.intern_token(kind, text);
        proof {
            lemma_elems_view_len(self.children@);
            lemma_elems_view_push(self.children@, GreenElement::Token(tok));
            lemma_texts_of_push(self.elems(), tok@);
            lemma_wf_elems_push(self.children@, GreenElement::Token(tok));
        }
        self.children.push(GreenElement::Token(tok));
    }

    /// Opens a new frame: children pushed from now on belong to it, until the
    /// matching `finish_node`.
    pub fn start_node(&mut self, kind: SyntaxKind)
        requires
            old(self).wf(),
        ensures
            final(self).wf(),
            final(self).frames() == old(self).frames().push(
                (kind, old(self).elems().len() as usize),
            ),
            final(self).elems() == old(self).elems(),
            final(self).text() == old(self).text(),
    {
        proof {
            lemma_elems_view_len(self.children@);
        }
        let at = self.children.len();
        self.parents.push((kind, at));
    }

    /// Opens a new frame retroactively, at the position `checkpoint` was
    /// captured: everything pushed into the current frame after the
    /// checkpoint will belong to the new frame, everything pushed before it
    /// stays a sibling of the new node in the enclosing frame.
    pub fn start_node_at(&mut self, checkpoint: Checkpoint, kind: SyntaxKind)
        requires
            old(self).wf(),
            checkpoint.0 <= old(self).elems().len(),
            old(self).frames().len() > 0 ==> old(self).frames().last().1 <= checkpoint.0,
        ensures
            final(self).wf(),
            final(self).frames() == old(self).frames().push((kind, checkpoint.0)),
            final(self).elems() == old(self).elems(),
            final(self).text() == old(self).text(),
    {
        proof {
            lemma_elems_view_len(self.children@);
        }
        self.parents.push((kind, checkpoint.0));
    }

    /// Closes the top frame: the children pushed since it opened become one
    /// interned node, appended in their place to the enclosing frame. No
    /// frame is open exactly when `UnbalancedTree` comes back, and then
    /// nothing changes. The builder's text is unchanged either way.
    pub fn finish_node(&mut self) -> (r: Result<(), TreeError>)
        requires
            old(self).wf(),
        ensures
            final(self).wf(),
            final(self).text() == old(self).text(),
            match r {
                Ok(()) => {
                    &&& old(self).frames().len() > 0
                    &&& final(self).frames() == old(self).frames().drop_last()
                    &&& final(self).elems() == old(self).elems().subrange(
                        0,
                        old(self).frames().last().1 as int,
                    ).push(
                        interned(
                            old(self).frames().last().0,
                            old(self).elems().subrange(
                                old(self).frames().last().1 as int,
                                old(self).elems().len() as int,
                            ),
                        ),
                    )
                },
                Err(e) => {
                    &&& e == TreeError::UnbalancedTree
                    &&& old(self).frames().len() == 0
                    &&& final(self).frames() == old(self).frames()
                    &&& final(self).elems() == old(self).elems()
                },
            },
    {
        proof {
            lemma_elems_view_len(self.children@);
        }
        let ghost prev = *self;
        match self.parents.pop() {
            None => Err(TreeError::UnbalancedTree),
            Some((kind, start)) => {
                let ghost all = prev.elems();
                let ghost n = all.len() as int;
                let suffix = self.children.split_off(start);
                proof {
                    lemma_elems_view_subrange(prev.children@, start as int, n);
                    lemma_elems_view_subrange(prev.children@, 0, start as int);
                    lemma_wf_elems_subrange(prev.children@, start as int, n);
                    lemma_wf_elems_subrange(prev.children@, 0, start as int);
                    lemma_texts_of_split(all, start as int);
                }
                let node = self.cache.intern_node(kind, suffix);
                let elem = GreenElement::Node(node);
                proof {
                    lemma_elems_view_push(self.children@, elem);
                    lemma_texts_of_push(all.subrange(0, start as int), elem@);
                    lemma_wf_elems_push(self.children@, elem);
                    lemma_elems_view_len(self.children@);
                }
                self.children.push(elem);
                Ok(())
            },
        }
    }

    /// Ends the build: with no frame left open and exactly one node at the
    /// top level, that node is the completed root; anything else is an
    /// unbalanced build and produces no tree.
    pub fn finish(self) -> (r: Result<GreenNode, TreeError>)
        requires
            self.wf(),
        ensures
            match r {
                Ok(root) => {
                    &&& self.frames().len() == 0
                    &&& self.elems().len() == 1
                    &&& is_node(self.elems()[0])
                    &&& root@ == self.elems()[0]
                    &&& wf_view(root@)
                    &&& text_of(root@) == self.text()
                },
                Err(e) => {
                    &&& e == TreeError::UnbalancedTree
                    &&& (self.frames().len() > 0 || self.elems().len() != 1 || !is_node(
                        self.elems()[0],
                    ))
                },
            },
    {
        proof {
            lemma_elems_view_len(self.children@);
            if self.children@.len() == 1 {
                lemma_elems_view_index(self.children@, 0);
                lemma_texts_of_singleton(self.elems()[0]);
                assert(self.elems() =~= seq![self.elems()[0]]);
            }
        }
        if self.parents.len() != 0 {
            return Err(TreeError::UnbalancedTree);
        }
        let mut children = self.children;
        if children.len() != 1 {
            return Err(TreeError::UnbalancedTree);
        }
        match children.pop() {
            Some(GreenElement::Node(n)) => Ok(n),
            Some(GreenElement::Token(_)) => Err(TreeError::UnbalancedTree),
            None => Err(TreeError::UnbalancedTree),
        }
    }
}

/// Checkpoint wrapping: over children `cs` with a checkpoint captured after
/// the first `k`, wrapping the rest into a fresh node keeps the first `k`
/// children in place, puts exactly the children pushed after the checkpoint
/// under the new node, and neither loses nor duplicates a token: the total
/// text is unchanged.
pub proof fn lemma_checkpoint_wrapping(cs: Seq<GreenView>, k: int, kind: SyntaxKind)
    requires
        0 <= k <= cs.len(),
    ensures
        ({
            let wrapped = cs.subrange(0, k).push(interned(kind, cs.subrange(k, cs.len() as int)));
            &&& wrapped.len() == k + 1
            &&& forall|i: int| 0 <= i < k ==> wrapped[i] == cs[i]
            &&& crate::model::children_of(wrapped[k]) == cs.subrange(k, cs.len() as int)
            &&& texts_of(wrapped) == texts_of(cs)
        }),
{
    let tail = cs.subrange(k, cs.len() as int);
    let wrapped = cs.subrange(0, k).push(interned(kind, tail));
    lemma_texts_of_push(cs.subrange(0, k), interned(kind, tail));
    lemma_texts_of_split(cs, k);
}

} // verus!
