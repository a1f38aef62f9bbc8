//! The red tree: a lazy navigation view over a green tree.
//!
//! A red node wraps a shared green node and adds what the green tree cannot
//! know: an absolute text offset, the index under its parent, and an owning
//! link to its red parent. Red nodes are materialized one child at a time as
//! a traversal visits them, and are confined to one thread (`Rc`, not `Arc`);
//! every traversal over the same green tree builds its own. `replace_child`
//! is the persistent update: it produces a fresh green root by copying only
//! the path from the edited child to the root, shares every sibling subtree
//! untouched, and leaves the old tree — and every red node over it — valid.

use vstd::prelude::*;

use std::rc::Rc;

use crate::green::{
    elem_view, elems_view, lemma_elems_view_index, lemma_elems_view_len, GreenElement, GreenNode,
    GreenToken, SyntaxKind, TreeError,
};
use crate::model::{
    lemma_splice_within,
    children_of, is_node, kind_of, len_of, prefix_len, splice, text_of, texts_of, wf_view,
    GreenView,
};

verus! {

/// Shared handle to a red node; single-owner-thread confined.
pub type RedNode = Rc<RedNodeData>;

/// Shared handle to a red token.
pub type RedToken = Rc<RedTokenData>;

/// An interior entity of the navigation tree.
pub struct RedNodeData {
    pub parent: Option<RedNode>,
    pub index_in_parent: usize,
    pub green: GreenNode,
    pub text_offset: usize,
}

/// A leaf of the navigation tree.
pub struct RedTokenData {
    pub parent: Option<RedNode>,
    pub index_in_parent: usize,
    pub green: GreenToken,
    pub text_offset: usize,
}

/// A materialized child of a red node: node or token.
pub enum RedElement {
    Node(RedNode),
    Token(RedToken),
}

/// Well-formedness of a red node: its green tree is well formed, its span
/// fits a `usize`, and its position data is consistent with its parent chain —
/// a root sits at offset zero, any other node is exactly the child its index
/// names, at the absolute offset of that child.
pub open spec fn red_wf(r: RedNodeData) -> bool
    decreases r,
{
    &&& wf_view(r.green@)
    &&& r.text_offset + len_of(r.green@) <= usize::MAX
    &&& match r.parent {
        None => r.text_offset == 0 && r.index_in_parent == 0,
        Some(p) => {
            &&& red_wf(*p)
            &&& is_node((*p).green@)
            &&& r.index_in_parent < children_of((*p).green@).len()
            &&& children_of((*p).green@)[r.index_in_parent as int] == r.green@
            &&& r.text_offset == (*p).text_offset + prefix_len(
                children_of((*p).green@),
                r.index_in_parent as int,
            )
        },
    }
}

/// Well-formedness of a red token: as for a red node, but a token always has
/// a parent.
pub open spec fn red_token_wf(r: RedTokenData) -> bool {
    &&& r.text_offset + len_of(r.green@) <= usize::MAX
    &&& match r.parent {
        None => false,
        Some(p) => {
            &&& red_wf(*p)
            &&& r.index_in_parent < children_of((*p).green@).len()
            &&& children_of((*p).green@)[r.index_in_parent as int] == r.green@
            &&& r.text_offset == (*p).text_offset + prefix_len(
                children_of((*p).green@),
                r.index_in_parent as int,
            )
        },
    }
}

/// Well-formedness of a materialized child, by tag.
pub open spec fn red_elem_wf(e: RedElement) -> bool {
    match e {
        RedElement::Node(c) => red_wf(*c),
        RedElement::Token(c) => red_token_wf(*c),
    }
}

/// The root of the parent chain.
pub open spec fn red_root(r: RedNodeData) -> RedNodeData
    decreases r,
{
    match r.parent {
        None => r,
        Some(p) => red_root(*p),
    }
}

/// The parent chain itself, from `r` up to and including the root.
pub open spec fn ancestor_chain(r: RedNodeData) -> Seq<RedNodeData>
    decreases r,
{
    match r.parent {
        None => seq![r],
        Some(p) => seq![r] + ancestor_chain(*p),
    }
}

/// `e` is child `i` of `parent`, fully materialized: it wraps the green child
/// at `i`, knows its index, sits at the child's absolute offset, and points
/// back at `parent`.
pub open spec fn child_at(parent: RedNodeData, i: int, e: RedElement) -> bool {
    let cs = children_of(parent.green@);
    let off = parent.text_offset + prefix_len(cs, i);
    match e {
        RedElement::Node(c) => {
            &&& is_node(cs[i])
            &&& (*c).green@ == cs[i]
            &&& (*c).index_in_parent == i
            &&& (*c).text_offset == off
            &&& (*c).parent matches Some(q) && *q == parent
        },
        RedElement::Token(c) => {
            &&& !is_node(cs[i])
            &&& (*c).green@ == cs[i]
            &&& (*c).index_in_parent == i
            &&& (*c).text_offset == off
            &&& (*c).parent matches Some(q) && *q == parent
        },
    }
}

/// Child `i`'s absolute span `[offset, offset + len)` contains the whole
/// range `[lo, hi)`.
pub open spec fn span_contains(parent: RedNodeData, i: int, lo: int, hi: int) -> bool {
    let cs = children_of(parent.green@);
    let off = parent.text_offset + prefix_len(cs, i);
    off <= lo && hi <= off + len_of(cs[i])
}

/// The text of the root above `r`.
pub open spec fn root_text(r: &RedNodeData) -> Seq<char> {
    text_of(red_root(*r).green@)
}

/// Relies on `std::rc::Rc::clone`: the result is a new handle to the same
/// shared red node.
#[verifier::external_body]
fn clone_rc_red(a: &RedNode) -> (r: RedNode)
    ensures
        r == *a,
{
    Rc::clone(a)
}

/// Relies on `std::rc::Rc::clone`: the result is a new handle to the same
/// shared red token.
#[verifier::external_body]
fn clone_rc_red_token(a: &RedToken) -> (r: RedToken)
    ensures
        r == *a,
{
    Rc::clone(a)
}

/// A well-formed red node's text is embedded in its root's text at exactly
/// its absolute offset.
pub proof fn lemma_red_embedding(r: &RedNodeData)
    requires
        red_wf(*r),
    ensures
        red_wf(red_root(*r)),
        red_root(*r).parent is None,
        r.text_offset + len_of(r.green@) <= len_of(red_root(*r).green@),
        text_of(red_root(*r).green@).subrange(
            r.text_offset as int,
            r.text_offset + len_of(r.green@),
        ) == text_of(r.green@),
    decreases *r,
{
    match &r.parent {
        None => {
            assert(text_of(r.green@).subrange(0, len_of(r.green@) as int) =~= text_of(r.green@));
        },
        Some(p) => {
            lemma_red_embedding(&**p);
            let cs = children_of((**p).green@);
            let i = r.index_in_parent as int;
            crate::model::lemma_texts_of_decompose(cs, i);
            let ptext = text_of((**p).green@);
            let a = prefix_len(cs, i) as int;
            assert(ptext.subrange(a, a + len_of(r.green@)) =~= text_of(r.green@));
            let poff = (**p).text_offset as int;
            assert(text_of(red_root(**p).green@).subrange(
                r.text_offset as int,
                r.text_offset + len_of(r.green@),
            ) =~= ptext.subrange(a, a + len_of(r.green@)));
        },
    }
}

impl RedNodeData {
    /// Wraps a green root as the root of a fresh red projection: no parent,
    /// offset zero.
    pub fn new_root(root: GreenNode) -> (r: RedNode)
        requires
            wf_view(root@),
        ensures
            red_wf(*r),
            (*r).parent is None,
            (*r).text_offset == 0,
            (*r).green@ == root@,
    {
        Rc::new(RedNodeData { parent: None, index_in_parent: 0, green: root, text_offset: 0 })
    }

    /// The green node this red node wraps.
    pub fn green(&self) -> (g: &GreenNode)
        ensures
            g@ == self.green@,
    {
        &self.green
    }

    /// Kind of the wrapped green node.
    pub fn kind(&self) -> (k: SyntaxKind)
        ensures
            k == kind_of(self.green@),
    {
        self.green.kind()
    }

    /// Length of the text this node covers.
    pub fn text_len(&self) -> (n: usize)
        requires
            red_wf(*self),
        ensures
            n == len_of(self.green@),
    {
        self.green.text_len()
    }

    /// Absolute offset of this node's text in the root's text.
    pub fn text_offset(&self) -> (n: usize)
        ensures
            n == self.text_offset,
    {
        self.text_offset
    }

    /// The enclosing red node, none at the root.
    pub fn parent(&self) -> (r: Option<&RedNode>)
        ensures
            match self.parent {
                Some(p) => r matches Some(q) && *q == p,
                None => r is None,
            },
    {
        self.parent.as_ref()
    }

    /// Renders the exact source text this node covers.
    pub fn to_text(&self) -> (s: String)
        ensures
            s@ == text_of(self.green@),
    {
        self.green.to_text()
    }

    /// Materializes child `i`, given its absolute offset.
    fn make_child(node: &RedNode, i: usize, off: usize) -> (e: RedElement)
        requires
            red_wf(**node),
            i < children_of((**node).green@).len(),
            off == (**node).text_offset + prefix_len(children_of((**node).green@), i as int),
        ensures
            child_at(**node, i as int, e),
            red_elem_wf(e),
    {
        let ghost cs = children_of((**node).green@);
        let green_children = node.green.data().children();
        proof {
            lemma_elems_view_len(green_children@);
            lemma_elems_view_index(green_children@, i as int);
            crate::model::lemma_texts_of_decompose(cs, i as int);
        }
        let parent = Some(clone_rc_red(node));
        match &green_children[i] {
            GreenElement::Node(g) => RedElement::Node(
                Rc::new(
                    RedNodeData {
                        parent,
                        index_in_parent: i,
                        green: g.clone(),
                        text_offset: off,
                    },
                ),
            ),
            GreenElement::Token(g) => RedElement::Token(
                Rc::new(
                    RedTokenData {
                        parent,
                        index_in_parent: i,
                        green: g.clone(),
                        text_offset: off,
                    },
                ),
            ),
        }
    }

    /// Materializes all immediate children, in order: child `i` wraps the
    /// `i`th green child, knows its index, sits at its absolute offset —
    /// this node's offset plus the lengths of the children before it — and
    /// points back at this node. O(k) for k children, whatever the subtree
    /// size.
    #[verifier::loop_isolation(false)]
    pub fn children(node: &RedNode) -> (r: Vec<RedElement>)
        requires
            red_wf(**node),
        ensures
            r@.len() == children_of((**node).green@).len(),
            forall|i: int|
                0 <= i < r@.len() ==> child_at(**node, i, #[trigger] r@[i]) && red_elem_wf(r@[i]),
    {
        let ghost cs = children_of((**node).green@);
        let n = node.green.data().children_len();
        let mut out: Vec<RedElement> = Vec::new();
        let mut off: usize = node.text_offset;
        let mut i: usize = 0;
        while i < n
            invariant
                red_wf(**node),
                cs == children_of((**node).green@),
                n == cs.len(),
                i <= n,
                off == (**node).text_offset + prefix_len(cs, i as int),
                out@.len() == i as int,
                forall|j: int|
                    0 <= j < i ==> child_at(**node, j, #[trigger] out@[j]) && red_elem_wf(out@[j]),
            decreases n - i,
        {
            proof {
                crate::model::lemma_prefix_len_step(cs, i as int);
                crate::model::lemma_prefix_len_monotone(cs, i as int + 1, cs.len() as int);
            }
            let child = Self::make_child(node, i, off);
            let step = child.text_len();
            out.push(child);
            off = off + step;
            i = i + 1;
        }
        out
    }

    /// The child at `idx`, materialized, or nothing past the last child.
    pub fn nth_child(node: &RedNode, idx: usize) -> (r: Option<RedElement>)
        requires
            red_wf(**node),
        ensures
            match r {
                Some(e) => {
                    &&& idx < children_of((**node).green@).len()
                    &&& child_at(**node, idx as int, e)
                    &&& red_elem_wf(e)
                },
                None => idx >= children_of((**node).green@).len(),
            },
    {
        let mut all = Self::children(node);
        if idx < all.len() {
            Some(all.swap_remove(idx))
        } else {
            None
        }
    }

    /// The single child whose span contains the absolute range, found by a
    /// scan of the cumulative child offsets; none if the range crosses a
    /// child boundary or lies outside this node's span. When several spans
    /// contain the range — possible only for an empty range on a boundary —
    /// the leftmost wins.
    #[verifier::loop_isolation(false)]
    pub fn child_containing_range(node: &RedNode, range: (usize, usize)) -> (r: Option<RedElement>)
        requires
            red_wf(**node),
            range.0 <= range.1,
        ensures
            match r {
                Some(e) => exists|i: int|
                    {
                        &&& 0 <= i < children_of((**node).green@).len()
                        &&& #[trigger] span_contains(**node, i, range.0 as int, range.1 as int)
                        &&& forall|j: int|
                            0 <= j < i ==> !span_contains(**node, j, range.0 as int, range.1 as int)
                        &&& child_at(**node, i, e)
                        &&& red_elem_wf(e)
                    },
                None => forall|i: int|
                    0 <= i < children_of((**node).green@).len() ==> !span_contains(
                        **node,
                        i,
                        range.0 as int,
                        range.1 as int,
                    ),
            },
    {
        let ghost cs = children_of((**node).green@);
        let ghost lo = range.0 as int;
        let ghost hi = range.1 as int;
        let green_children = node.green.data().children();
        proof {
            lemma_elems_view_len(green_children@);
        }
        let n = green_children.len();
        let mut off: usize = node.text_offset;
        let mut i: usize = 0;
        while i < n
            invariant
                red_wf(**node),
                range.0 <= range.1,
                cs == children_of((**node).green@),
                lo == range.0 as int,
                hi == range.1 as int,
                n == cs.len(),
                i <= n,
                off == (**node).text_offset + prefix_len(cs, i as int),
                forall|j: int| 0 <= j < i ==> !span_contains(**node, j, lo, hi),
            decreases n - i,
        {
            proof {
                lemma_elems_view_index(green_children@, i as int);
                crate::model::lemma_prefix_len_step(cs, i as int);
                crate::model::lemma_prefix_len_monotone(cs, i as int + 1, cs.len() as int);
            }
            let step = green_children[i].text_len();
            if range.0 >= off && range.1 <= off + step {
                proof {
                    assert(span_contains(**node, i as int, lo, hi));
                }
                return Some(Self::make_child(node, i, off));
            }
            off = off + step;
            i = i + 1;
        }
        None
    }

    /// The persistent update: a fresh root in which the child at `idx` of
    /// this node is `new_child`, built by path copying — at every ancestor
    /// only the one edited slot is replaced, every sibling subtree is shared.
    /// Nothing already materialized is touched: this node, its tree and every
    /// red node over it still describe the pre-edit text. The new root's text
    /// is the old root's text with exactly the replaced child's absolute span
    /// spliced. The only failure is an index with no child under it.
    pub fn replace_child(node: &RedNode, idx: usize, new_child: GreenElement) -> (r: Result<
        RedNode,
        TreeError,
    >)
        requires
            red_wf(**node),
            wf_view(new_child@),
            idx < children_of((**node).green@).len() ==> len_of(red_root(**node).green@) - len_of(
                children_of((**node).green@)[idx as int],
            ) + len_of(new_child@) <= usize::MAX,
        ensures
            match r {
                Ok(root) => {
                    &&& idx < children_of((**node).green@).len()
                    &&& red_wf(*root)
                    &&& (*root).parent is None
                    &&& (*root).text_offset == 0
                    &&& text_of((*root).green@) == splice(
                        text_of(red_root(**node).green@),
                        (**node).text_offset + prefix_len(
                            children_of((**node).green@),
                            idx as int,
                        ),
                        (**node).text_offset + prefix_len(children_of((**node).green@), idx as int)
                            + len_of(children_of((**node).green@)[idx as int]),
                        text_of(new_child@),
                    )
                },
                Err(e) => {
                    &&& e == TreeError::InvalidChildIndex
                    &&& idx >= children_of((**node).green@).len()
                },
            },
    {
        let ghost cs = children_of((**node).green@);
        proof {
            lemma_red_embedding(&**node);
        }
        match node.green.data().replace_child(idx, new_child) {
            Err(e) => Err(e),
            Ok(d) => {
                let g = GreenNode::from_data(std::sync::Arc::new(d));
                proof {
                    crate::model::lemma_texts_of_decompose(cs, idx as int);
                    lemma_splice_within(
                        root_text(&**node),
                        (**node).text_offset as int,
                        text_of((**node).green@),
                        prefix_len(cs, idx as int) as int,
                        prefix_len(cs, idx as int) as int + len_of(cs[idx as int]) as int,
                        text_of(new_child@),
                    );
                }
                Ok(Self::replace_ourselves(node, g))
            },
        }
    }

    /// Rebuilds the path from this node to the root around a new green tree
    /// standing in this node's place: each ancestor in turn replaces the one
    /// edited child slot, until a fresh red root comes out. O(depth).
    pub fn replace_ourselves(node: &RedNode, new_green: GreenNode) -> (r: RedNode)
        requires
            red_wf(**node),
            wf_view(new_green@),
            len_of(red_root(**node).green@) - len_of((**node).green@) + len_of(new_green@)
                <= usize::MAX,
        ensures
            red_wf(*r),
            (*r).parent is None,
            (*r).text_offset == 0,
            len_of((*r).green@) == len_of(red_root(**node).green@) - len_of((**node).green@)
                + len_of(new_green@),
            text_of((*r).green@) == splice(
                text_of(red_root(**node).green@),
                (**node).text_offset as int,
                (**node).text_offset + len_of((**node).green@),
                text_of(new_green@),
            ),
        decreases **node,
    {
        match &node.parent {
            None => {
                proof {
                    crate::model::lemma_splice_all(text_of((**node).green@), text_of(new_green@));
                }
                RedNodeData::new_root(new_green)
            },
            Some(p) => {
                let ghost cs = children_of((**p).green@);
                let idx = node.index_in_parent;
                proof {
                    assert(red_wf(**p));
                    assert(wf_view((**p).green@));
                    lemma_red_embedding(&**p);
                    crate::model::lemma_texts_of_decompose(cs, idx as int);
                }
                let d = match p.green.data().replace_child(idx, GreenElement::Node(new_green)) {
                    Ok(d) => d,
                    Err(_) => vstd::pervasive::unreached(),
                };
                let g = GreenNode::from_data(std::sync::Arc::new(d));
                proof {
                    lemma_splice_within(
                        root_text(&**p),
                        (**p).text_offset as int,
                        text_of((**p).green@),
                        prefix_len(cs, idx as int) as int,
                        prefix_len(cs, idx as int) as int + len_of(cs[idx as int]) as int,
                        text_of(new_green@),
                    );
                }
                Self::replace_ourselves(p, g)
            },
        }
    }

    /// The chain of red nodes from this one up to the root, in order.
    pub fn ancestors(node: &RedNode) -> (r: Vec<RedNode>)
        ensures
            r@.len() == ancestor_chain(**node).len(),
            forall|i: int| 0 <= i < r@.len() ==> *r@[i] == ancestor_chain(**node)[i],
    decreases **node,
    {
        let mut out: Vec<RedNode> = Vec::new();
        out.push(clone_rc_red(node));
        match &node.parent {
            None => {
                proof {
                    assert(ancestor_chain(**node) =~= seq![**node]);
                }
            },
            Some(p) => {
                let mut rest = Self::ancestors(p);
                out.append(&mut rest);
                proof {
                    assert(ancestor_chain(**node) =~= seq![**node] + ancestor_chain(**p));
                }
            },
        }
        out
    }
}

impl RedTokenData {
    /// The green token this red token wraps.
    pub fn green(&self) -> (g: &GreenToken)
        ensures
            g@ == self.green@,
    {
        &self.green
    }

    /// Kind of the wrapped token.
    pub fn kind(&self) -> (k: SyntaxKind)
        ensures
            k == kind_of(self.green@),
    {
        self.green.kind()
    }

    /// Length of the text this token covers.
    pub fn text_len(&self) -> (n: usize)
        ensures
            n == len_of(self.green@),
    {
        self.green.text_len()
    }

    /// Absolute offset of this token's text in the root's text.
    pub fn text_offset(&self) -> (n: usize)
        ensures
            n == self.text_offset,
    {
        self.text_offset
    }

    /// The enclosing red node.
    pub fn parent(&self) -> (r: Option<&RedNode>)
        ensures
            match self.parent {
                Some(p) => r matches Some(q) && *q == p,
                None => r is None,
            },
    {
        self.parent.as_ref()
    }

    /// The exact text this token covers.
    pub fn to_text(&self) -> (s: String)
        ensures
            s@ == text_of(self.green@),
    {
        self.green.text().to_owned()
    }
}

impl RedElement {
    /// Kind of this element, dispatching on the tag.
    pub fn kind(&self) -> (k: SyntaxKind)
        ensures
            k == kind_of(self.green_view()),
    {
        match self {
            RedElement::Node(it) => it.kind(),
            RedElement::Token(it) => it.kind(),
        }
    }

    /// The wrapped green tree, as a ghost value.
    pub open spec fn green_view(&self) -> GreenView {
        match self {
            RedElement::Node(it) => (*it).green@,
            RedElement::Token(it) => (*it).green@,
        }
    }

    /// Length of the text this element covers.
    pub fn text_len(&self) -> (n: usize)
        requires
            red_elem_wf(*self),
        ensures
            n == len_of(self.green_view()),
    {
        match self {
            RedElement::Node(it) => it.text_len(),
            RedElement::Token(it) => it.text_len(),
        }
    }

    /// Absolute offset of this element's text in the root's text.
    pub fn text_offset(&self) -> (n: usize)
        ensures
            match self {
                RedElement::Node(it) => n == (**it).text_offset,
                RedElement::Token(it) => n == (**it).text_offset,
            },
    {
        match self {
            RedElement::Node(it) => it.text_offset(),
            RedElement::Token(it) => it.text_offset(),
        }
    }

    /// The enclosing red node, dispatching on the tag.
    pub fn parent(&self) -> (r: Option<&RedNode>)
        ensures
            match self {
                RedElement::Node(it) => match (**it).parent {
                    Some(p) => r matches Some(q) && *q == p,
                    None => r is None,
                },
                RedElement::Token(it) => match (**it).parent {
                    Some(p) => r matches Some(q) && *q == p,
                    None => r is None,
                },
            },
    {
        match self {
            RedElement::Node(it) => it.parent(),
            RedElement::Token(it) => it.parent(),
        }
    }

    /// The exact text this element covers.
    pub fn to_text(&self) -> (s: String)
        ensures
            s@ == text_of(self.green_view()),
    {
        match self {
            RedElement::Node(it) => it.to_text(),
            RedElement::Token(it) => it.to_text(),
        }
    }

    /// A new handle to this element's red node, if it is one.
    pub fn as_node(&self) -> (r: Option<RedNode>)
        ensures
            match r {
                Some(n) => self matches RedElement::Node(m) && n == *m,
                None => self matches RedElement::Token(_),
            },
    {
        match self {
            RedElement::Node(it) => Some(clone_rc_red(it)),
            RedElement::Token(_) => None,
        }
    }

    /// A new handle to this element's red token, if it is one.
    pub fn as_token(&self) -> (r: Option<RedToken>)
        ensures
            match r {
                Some(t) => self matches RedElement::Token(u) && t == *u,
                None => self matches RedElement::Node(_),
            },
    {
        match self {
            RedElement::Node(_) => None,
            RedElement::Token(it) => Some(clone_rc_red_token(it)),
        }
    }

    /// This element as a red node, if it is one.
    pub fn into_node(self) -> (r: Option<RedNode>)
        ensures
            match r {
                Some(n) => self matches RedElement::Node(m) && n == m,
                None => self matches RedElement::Token(_),
            },
    {
        match self {
            RedElement::Node(it) => Some(it),
            RedElement::Token(_) => None,
        }
    }

    /// This element as a red token, if it is one.
    pub fn into_token(self) -> (r: Option<RedToken>)
        ensures
            match r {
                Some(t) => self matches RedElement::Token(u) && t == u,
                None => self matches RedElement::Node(_),
            },
    {
        match self {
            RedElement::Node(_) => None,
            RedElement::Token(it) => Some(it),
        }
    }
}

} // verus!
