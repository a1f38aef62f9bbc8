//! The green tree: immutable, position-free, structurally shared values.
//!
//! Tokens and nodes are held behind atomically reference-counted pointers, so
//! a subtree can be shared by any number of parents and trees; nothing here is
//! ever mutated after construction. A node memoizes the length of the text it
//! covers; well-formedness ([`crate::model::wf_view`]) says every memoized
//! length is exact.

use vstd::prelude::*;

use std::sync::Arc;
use vstd::string::{StrSliceExecFns, StringExecFns};

use crate::model::{
    prefix_len, splice,
    children_of, kind_of, len_of, text_of, texts_of, wf_view, GreenView,
};

verus! {

/// Tag identifying the grammatical role of a token or node.
#[derive(Debug, Clone, Copy, PartialEq, Eq, Structural, Hash)]
pub struct SyntaxKind(pub u16);

/// A leaf of the green tree: a kind and the covered text.
#[derive(Debug)]
pub struct GreenTokenData {
    pub kind: SyntaxKind,
    pub text: String,
}

/// Shared handle to a green token.
#[derive(Debug)]
pub struct GreenToken {
    pub ptr: Arc<GreenTokenData>,
}

/// An interior node of the green tree: a kind, the memoized length of the
/// covered text, and the ordered children.
#[derive(Debug)]
pub struct GreenNodeData {
    pub kind: SyntaxKind,
    pub text_len: usize,
    pub children: Vec<GreenElement>,
}

/// Shared handle to a green node.
#[derive(Debug)]
pub struct GreenNode {
    pub ptr: Arc<GreenNodeData>,
}

/// A child of a green node: either a node or a token, never anything else.
#[derive(Debug)]
pub enum GreenElement {
    Node(GreenNode),
    Token(GreenToken),
}

impl View for GreenTokenData {
    type V = GreenView;

    open spec fn view(&self) -> GreenView {
        GreenView::Token { kind: self.kind, text: self.text@ }
    }
}

impl View for GreenToken {
    type V = GreenView;

    open spec fn view(&self) -> GreenView {
        (*self.ptr)@
    }
}

/// Ghost value of a green node.
pub open spec fn node_data_view(n: GreenNodeData) -> GreenView
    decreases n,
{
    GreenView::Node {
        kind: n.kind,
        text_len: n.text_len as nat,
        children: elems_view(n.children@),
    }
}

/// Ghost values of a sequence of green elements, in order.
pub open spec fn elems_view(es: Seq<GreenElement>) -> Seq<GreenView>
    decreases es,
{
    if es.len() == 0 {
        Seq::empty()
    } else {
        elems_view(es.subrange(0, es.len() - 1)).push(elem_view(es[es.len() - 1]))
    }
}

/// Ghost value of a green element.
pub open spec fn elem_view(e: GreenElement) -> GreenView
    decreases e,
{
    match e {
        GreenElement::Node(n) => node_data_view(*n.ptr),
        GreenElement::Token(t) => (*t.ptr)@,
    }
}

impl View for GreenNodeData {
    type V = GreenView;

    open spec fn view(&self) -> GreenView {
        node_data_view(*self)
    }
}

impl View for GreenNode {
    type V = GreenView;

    open spec fn view(&self) -> GreenView {
        node_data_view(*self.ptr)
    }
}

impl View for GreenElement {
    type V = GreenView;

    open spec fn view(&self) -> GreenView {
        elem_view(*self)
    }
}

/// Failure conditions of tree operations.
#[derive(Debug, Clone, Copy, PartialEq, Eq, Structural)]
pub enum TreeError {
    /// `replace_child` was given an index with no child under it.
    InvalidChildIndex,
    /// The builder was finished with mismatched start/finish calls.
    UnbalancedTree,
}

/// A view of a sequence of elements is as long as the sequence.
pub broadcast proof fn lemma_elems_view_len(es: Seq<GreenElement>)
    ensures
        (#[trigger] elems_view(es)).len() == es.len(),
    decreases es,
{
    if es.len() != 0 {
        lemma_elems_view_len(es.subrange(0, es.len() - 1));
    }
}

/// The view of a sequence of elements is the sequence of the elements' views.
pub broadcast proof fn lemma_elems_view_index(es: Seq<GreenElement>, i: int)
    requires
        0 <= i < es.len(),
    ensures
        #[trigger] elems_view(es)[i] == elem_view(es[i]),
    decreases es,
{
    lemma_elems_view_len(es);
    let front = es.subrange(0, es.len() - 1);
    lemma_elems_view_len(front);
    if i < es.len() - 1 {
        lemma_elems_view_index(front, i);
        assert(front[i] == es[i]);
    }
}

/// Element views commute with taking a subrange.
pub proof fn lemma_elems_view_subrange(es: Seq<GreenElement>, i: int, j: int)
    requires
        0 <= i <= j <= es.len(),
    ensures
        elems_view(es.subrange(i, j)) == elems_view(es).subrange(i, j),
{
    broadcast use lemma_elems_view_len, lemma_elems_view_index;

    assert(elems_view(es.subrange(i, j)) =~= elems_view(es).subrange(i, j));
}

/// Element views commute with replacing one element.
pub proof fn lemma_elems_view_update(es: Seq<GreenElement>, i: int, e: GreenElement)
    requires
        0 <= i < es.len(),
    ensures
        elems_view(es.update(i, e)) == elems_view(es).update(i, elem_view(e)),
{
    broadcast use lemma_elems_view_len, lemma_elems_view_index;

    assert(elems_view(es.update(i, e)) =~= elems_view(es).update(i, elem_view(e)));
}

/// Element views commute with appending one element.
pub proof fn lemma_elems_view_push(es: Seq<GreenElement>, e: GreenElement)
    ensures
        elems_view(es.push(e)) == elems_view(es).push(elem_view(e)),
{
    let whole = es.push(e);
    assert(whole.subrange(0, whole.len() - 1) =~= es);
    assert(whole[whole.len() - 1] == e);
}

/// Every element of the sequence views to a well-formed tree.
pub open spec fn wf_elems(es: Seq<GreenElement>) -> bool {
    forall|i: int| 0 <= i < es.len() ==> wf_view(#[trigger] elem_view(es[i]))
}

/// Well-formedness of elements carries over to any subrange.
pub proof fn lemma_wf_elems_subrange(es: Seq<GreenElement>, i: int, j: int)
    requires
        wf_elems(es),
        0 <= i <= j <= es.len(),
    ensures
        wf_elems(es.subrange(i, j)),
{
    let part = es.subrange(i, j);
    assert forall|k: int| 0 <= k < part.len() implies wf_view(#[trigger] elem_view(part[k])) by {
        assert(part[k] == es[i + k]);
    }
}

/// Well-formedness of elements carries over to appending a well-formed one.
pub proof fn lemma_wf_elems_push(es: Seq<GreenElement>, e: GreenElement)
    requires
        wf_elems(es),
        wf_view(elem_view(e)),
    ensures
        wf_elems(es.push(e)),
{
    let whole = es.push(e);
    assert forall|k: int| 0 <= k < whole.len() implies wf_view(#[trigger] elem_view(whole[k])) by {
        if k < es.len() {
            assert(whole[k] == es[k]);
        } else {
            assert(whole[k] == e);
        }
    }
}

/// Relies on `std::sync::Arc::clone`: the result is a new handle to the same
/// shared token data.
#[verifier::external_body]
fn clone_arc_token(a: &Arc<GreenTokenData>) -> (r: Arc<GreenTokenData>)
    ensures
        r == *a,
{
    Arc::clone(a)
}

/// Relies on `std::sync::Arc::clone`: the result is a new handle to the same
/// shared node data.
#[verifier::external_body]
fn clone_arc_node(a: &Arc<GreenNodeData>) -> (r: Arc<GreenNodeData>)
    ensures
        r == *a,
{
    Arc::clone(a)
}

impl Clone for GreenToken {
    /// Cheap copy: a new handle to the same shared token.
    fn clone(&self) -> (r: Self)
        ensures
            r == *self,
    {
        GreenToken { ptr: clone_arc_token(&self.ptr) }
    }
}

impl Clone for GreenNode {
    /// Cheap copy: a new handle to the same shared node.
    fn clone(&self) -> (r: Self)
        ensures
            r == *self,
    {
        GreenNode { ptr: clone_arc_node(&self.ptr) }
    }
}

impl Clone for GreenElement {
    /// Cheap copy: a new handle to the same shared node or token.
    fn clone(&self) -> (r: Self)
        ensures
            r == *self,
    {
        match self {
            GreenElement::Node(n) => GreenElement::Node(n.clone()),
            GreenElement::Token(t) => GreenElement::Token(t.clone()),
        }
    }
}

impl GreenTokenData {
    /// A fresh leaf with the given kind and text.
    pub fn new(kind: SyntaxKind, text: String) -> (t: GreenTokenData)
        ensures
            t@ == (GreenView::Token { kind, text: text@ }),
    {
        GreenTokenData { kind, text }
    }

    /// Kind of this token.
    pub fn kind(&self) -> (k: SyntaxKind)
        ensures
            k == kind_of(self@),
    {
        self.kind
    }

    /// Text of this token.
    pub fn text(&self) -> (t: &str)
        ensures
            t@ == text_of(self@),
    {
        self.text.as_str()
    }

    /// Length of the text covered by this token.
    pub fn text_len(&self) -> (n: usize)
        ensures
            n == len_of(self@),
    {
        self.text.as_str().unicode_len()
    }
}

impl GreenToken {
    /// A fresh shared leaf with the given kind and text.
    pub fn new(kind: SyntaxKind, text: &str) -> (t: GreenToken)
        ensures
            t@ == (GreenView::Token { kind, text: text@ }),
    {
        GreenToken { ptr: Arc::new(GreenTokenData::new(kind, text.to_owned())) }
    }

    /// The shared token data.
    pub fn data(&self) -> (d: &GreenTokenData)
        ensures
            d@ == self@,
    {
        &self.ptr
    }

    /// Kind of this token.
    pub fn kind(&self) -> (k: SyntaxKind)
        ensures
            k == kind_of(self@),
    {
        self.ptr.kind
    }

    /// Text of this token.
    pub fn text(&self) -> (t: &str)
        ensures
            t@ == text_of(self@),
    {
        self.ptr.text.as_str()
    }

    /// Length of the text covered by this token.
    pub fn text_len(&self) -> (n: usize)
        ensures
            n == len_of(self@),
    {
        self.ptr.text.as_str().unicode_len()
    }
}

impl GreenElement {
    /// Kind of this element, dispatching on the tag.
    pub fn kind(&self) -> (k: SyntaxKind)
        ensures
            k == kind_of(self@),
    {
        match self {
            GreenElement::Node(n) => n.kind(),
            GreenElement::Token(t) => t.kind(),
        }
    }

    /// Length of the text covered by this element, dispatching on the tag.
    pub fn text_len(&self) -> (n: usize)
        requires
            wf_view(self@),
        ensures
            n == len_of(self@),
    {
        match self {
            GreenElement::Node(n) => n.text_len(),
            GreenElement::Token(t) => t.text_len(),
        }
    }
}

/// A borrowed green element: a child looked at without taking a new handle.
#[derive(Debug, Clone, Copy)]
pub enum GreenElementRef<'a> {
    Node(&'a GreenNode),
    Token(&'a GreenToken),
}

impl<'a> GreenElementRef<'a> {
    /// Ghost value of the borrowed tree.
    pub open spec fn ref_view(self) -> GreenView {
        match self {
            GreenElementRef::Node(n) => (*n)@,
            GreenElementRef::Token(t) => (*t)@,
        }
    }

    /// Kind of this element.
    pub fn kind(&self) -> (k: SyntaxKind)
        ensures
            k == kind_of(self.ref_view()),
    {
        match self {
            GreenElementRef::Node(n) => n.kind(),
            GreenElementRef::Token(t) => t.kind(),
        }
    }

    /// Length of the text covered by this element.
    pub fn text_len(self) -> (n: usize)
        requires
            wf_view(self.ref_view()),
        ensures
            n == len_of(self.ref_view()),
    {
        match self {
            GreenElementRef::Node(n) => n.text_len(),
            GreenElementRef::Token(t) => t.text_len(),
        }
    }

    /// A new owning handle to the same shared tree.
    pub fn to_owned(self) -> (e: GreenElement)
        ensures
            e@ == self.ref_view(),
    {
        match self {
            GreenElementRef::Node(n) => GreenElement::Node(n.clone()),
            GreenElementRef::Token(t) => GreenElement::Token(t.clone()),
        }
    }
}

impl GreenElement {
    /// Borrows this element.
    pub fn as_deref(&self) -> (r: GreenElementRef<'_>)
        ensures
            r.ref_view() == self@,
    {
        match self {
            GreenElement::Node(n) => GreenElementRef::Node(n),
            GreenElement::Token(t) => GreenElementRef::Token(t),
        }
    }
}

/// Sum of the covered-text lengths of the elements: the text length the node
/// over them memoizes.
fn total_text_len(children: &Vec<GreenElement>) -> (n: usize)
    requires
        wf_elems(children@),
        texts_of(elems_view(children@)).len() <= usize::MAX,
    ensures
        n == texts_of(elems_view(children@)).len(),
{
    let ghost vs = elems_view(children@);
    proof {
        lemma_elems_view_len(children@);
    }
    let mut total: usize = 0;
    let mut i: usize = 0;
    while i < children.len()
        invariant
            wf_elems(children@),
            texts_of(vs).len() <= usize::MAX,
            vs == elems_view(children@),
            vs.len() == children@.len(),
            i <= children.len(),
            total == prefix_len(vs, i as int),
        decreases children.len() - i,
    {
        proof {
            lemma_elems_view_index(children@, i as int);
            crate::model::lemma_prefix_len_step(vs, i as int);
            crate::model::lemma_prefix_len_monotone(vs, i as int + 1, vs.len() as int);
        }
        total = total + children[i].text_len();
        i = i + 1;
    }
    proof {
        assert(vs.subrange(0, vs.len() as int) =~= vs);
    }
    total
}

impl GreenNodeData {
    /// A fresh interior node over `children`, memoizing the covered-text
    /// length.
    pub fn new(kind: SyntaxKind, children: Vec<GreenElement>) -> (n: GreenNodeData)
        requires
            wf_elems(children@),
            texts_of(elems_view(children@)).len() <= usize::MAX,
        ensures
            n@ == (GreenView::Node {
                kind,
                text_len: texts_of(elems_view(children@)).len(),
                children: elems_view(children@),
            }),
            wf_view(n@),
    {
        let text_len = total_text_len(&children);
        proof {
            lemma_elems_view_len(children@);
            assert forall|i: int| 0 <= i < elems_view(children@).len() implies wf_view(
                #[trigger] elems_view(children@)[i],
            ) by {
                lemma_elems_view_index(children@, i);
            }
        }
        GreenNodeData { kind, text_len, children }
    }

    /// Kind of this node.
    pub fn kind(&self) -> (k: SyntaxKind)
        ensures
            k == kind_of(self@),
    {
        self.kind
    }

    /// Length of the text covered by this node; memoized, O(1).
    pub fn text_len(&self) -> (n: usize)
        requires
            wf_view(self@),
        ensures
            n == len_of(self@),
    {
        self.text_len
    }

    /// The children of this node, in order.
    pub fn children(&self) -> (cs: &Vec<GreenElement>)
        ensures
            *cs == self.children,
            elems_view(cs@) == children_of(self@),
    {
        &self.children
    }

    /// How many children this node has.
    pub fn children_len(&self) -> (n: usize)
        ensures
            n == children_of(self@).len(),
    {
        proof {
            assert(self@ == node_data_view(*self));
            assert(children_of(self@) == elems_view(self.children@));
            lemma_elems_view_len(self.children@);
        }
        self.children.len()
    }

    /// Pure update: a fresh node identical to this one except that the child
    /// at `idx` is `new_child`; this node is untouched. The only failure is
    /// an index with no child under it.
    pub fn replace_child(&self, idx: usize, new_child: GreenElement) -> (r: Result<
        GreenNodeData,
        TreeError,
    >)
        requires
            wf_view(self@),
            wf_view(new_child@),
            idx < children_of(self@).len() ==> len_of(self@) - len_of(children_of(self@)[idx as int])
                + len_of(new_child@) <= usize::MAX,
        ensures
            match r {
                Ok(n) => {
                    &&& idx < children_of(self@).len()
                    &&& n@ == (GreenView::Node {
                        kind: kind_of(self@),
                        text_len: (len_of(self@) - len_of(children_of(self@)[idx as int])
                            + len_of(new_child@)) as nat,
                        children: children_of(self@).update(idx as int, new_child@),
                    })
                    &&& wf_view(n@)
                    &&& text_of(n@) == splice(
                        text_of(self@),
                        prefix_len(children_of(self@), idx as int) as int,
                        prefix_len(children_of(self@), idx as int) + len_of(
                            children_of(self@)[idx as int],
                        ) as int,
                        text_of(new_child@),
                    )
                },
                Err(e) => e == TreeError::InvalidChildIndex && idx >= children_of(self@).len(),
            },
    {
        proof {
            lemma_elems_view_len(self.children@);
        }
        if idx >= self.children.len() {
            return Err(TreeError::InvalidChildIndex);
        }
        let ghost cs = children_of(self@);
        proof {
            lemma_elems_view_index(self.children@, idx as int);
            crate::model::lemma_texts_of_decompose(cs, idx as int);
            crate::model::lemma_texts_of_update(cs, idx as int, new_child@);
        }
        let old_len = self.children[idx].text_len();
        let new_len = self.text_len - old_len + new_child.text_len();
        let mut children: Vec<GreenElement> = Vec::new();
        let mut i: usize = 0;
        while i < idx
            invariant
                idx < self.children.len(),
                i <= idx,
                children@.len() == i as int,
                forall|j: int| 0 <= j < i ==> children@[j] == self.children@[j],
            decreases idx - i,
        {
            children.push(self.children[i].clone());
            i = i + 1;
        }
        children.push(new_child);
        let mut j: usize = idx + 1;
        while j < self.children.len()
            invariant
                idx < self.children.len(),
                idx + 1 <= j <= self.children.len(),
                children@.len() == j as int,
                forall|k: int| 0 <= k < j && k != idx ==> children@[k] == self.children@[k],
                children@[idx as int] == new_child,
            decreases self.children.len() - j,
        {
            children.push(self.children[j].clone());
            j = j + 1;
        }
        proof {
            assert(children@ =~= self.children@.update(idx as int, new_child));
            lemma_elems_view_update(self.children@, idx as int, new_child);
        }
        Ok(GreenNodeData { kind: self.kind, text_len: new_len, children })
    }
}

impl GreenNode {
    /// A fresh shared interior node over `children`.
    pub fn new(kind: SyntaxKind, children: Vec<GreenElement>) -> (n: GreenNode)
        requires
            wf_elems(children@),
            texts_of(elems_view(children@)).len() <= usize::MAX,
        ensures
            n@ == (GreenView::Node {
                kind,
                text_len: texts_of(elems_view(children@)).len(),
                children: elems_view(children@),
            }),
            wf_view(n@),
    {
        GreenNode { ptr: Arc::new(GreenNodeData::new(kind, children)) }
    }

    /// Wraps already shared node data.
    pub fn from_data(data: Arc<GreenNodeData>) -> (n: GreenNode)
        ensures
            n@ == (*data)@,
    {
        GreenNode { ptr: data }
    }

    /// The shared node data.
    pub fn data(&self) -> (d: &GreenNodeData)
        ensures
            d@ == self@,
    {
        &self.ptr
    }

    /// Kind of this node.
    pub fn kind(&self) -> (k: SyntaxKind)
        ensures
            k == kind_of(self@),
    {
        self.ptr.kind
    }

    /// Length of the text covered by this node; memoized, O(1).
    pub fn text_len(&self) -> (n: usize)
        requires
            wf_view(self@),
        ensures
            n == len_of(self@),
    {
        self.ptr.text_len
    }
}

/// Appends to `out` the text covered by `e`: full fidelity, leaf texts in
/// order.
fn push_elem_text(e: &GreenElement, out: &mut String)
    ensures
        final(out)@ == old(out)@ + text_of(e@),
    decreases *e,
{
    match e {
        GreenElement::Token(t) => out.append(t.ptr.text.as_str()),
        GreenElement::Node(n) => push_node_text(&n.ptr, out),
    }
}

/// Appends to `out` the text covered by `n`: the children's texts in order.
fn push_node_text(n: &GreenNodeData, out: &mut String)
    ensures
        final(out)@ == old(out)@ + text_of(n@),
    decreases *n,
{
    let ghost vs = elems_view(n.children@);
    let ghost orig = out@;
    proof {
        lemma_elems_view_len(n.children@);
        assert(vs.subrange(0, 0) =~= Seq::<GreenView>::empty());
        assert(orig + texts_of(vs.subrange(0, 0)) =~= orig);
    }
    let mut i: usize = 0;
    while i < n.children.len()
        invariant
            vs == elems_view(n.children@),
            vs.len() == n.children@.len(),
            i <= n.children.len(),
            out@ == orig + texts_of(vs.subrange(0, i as int)),
        decreases n.children.len() - i,
    {
        proof {
            lemma_elems_view_index(n.children@, i as int);
        }
        push_elem_text(&n.children[i], out);
        proof {
            assert(vs.subrange(0, i + 1) =~= vs.subrange(0, i as int).push(vs[i as int]));
            crate::model::lemma_texts_of_push(vs.subrange(0, i as int), vs[i as int]);
        }
        i = i + 1;
    }
    proof {
        assert(vs.subrange(0, vs.len() as int) =~= vs);
    }
}

impl GreenNodeData {
    /// Renders the exact source text this node covers: the concatenation, in
    /// order, of every leaf token's text.
    pub fn to_text(&self) -> (s: String)
        ensures
            s@ == text_of(self@),
    {
        let mut out = String::new();
        push_node_text(self, &mut out);
        out
    }
}

impl GreenNode {
    /// Renders the exact source text this node covers.
    pub fn to_text(&self) -> (s: String)
        ensures
            s@ == text_of(self@),
    {
        self.ptr.to_text()
    }
}

impl GreenElement {
    /// Renders the exact source text this element covers.
    pub fn to_text(&self) -> (s: String)
        ensures
            s@ == text_of(self@),
    {
        let mut out = String::new();
        push_elem_text(self, &mut out);
        out
    }
}

/// Structural equality of tokens: same kind and same text.
pub fn token_data_eq(a: &GreenTokenData, b: &GreenTokenData) -> (r: bool)
    ensures
        r == (a@ == b@),
{
    a.kind == b.kind && a.text == b.text
}

/// Structural equality of nodes: same kind and recursively equal children.
pub fn node_data_eq(a: &GreenNodeData, b: &GreenNodeData) -> (r: bool)
    ensures
        r == (a@ == b@),
    decreases *a,
{
    if a.kind != b.kind {
        return false;
    }
    if a.text_len != b.text_len {
        return false;
    }
    proof {
        lemma_elems_view_len(a.children@);
        lemma_elems_view_len(b.children@);
    }
    if a.children.len() != b.children.len() {
        return false;
    }
    let ghost avs = elems_view(a.children@);
    let ghost bvs = elems_view(b.children@);
    let mut i: usize = 0;
    while i < a.children.len()
        invariant
            avs == elems_view(a.children@),
            bvs == elems_view(b.children@),
            avs.len() == a.children@.len(),
            bvs.len() == b.children@.len(),
            a.children@.len() == b.children@.len(),
            i <= a.children.len(),
            forall|j: int| 0 <= j < i ==> avs[j] == bvs[j],
        decreases a.children.len() - i,
    {
        proof {
            lemma_elems_view_index(a.children@, i as int);
            lemma_elems_view_index(b.children@, i as int);
        }
        if !elem_eq(&a.children[i], &b.children[i]) {
            return false;
        }
        i = i + 1;
    }
    proof {
        assert(avs =~= bvs);
    }
    true
}

/// Structural equality of elements: equal tags and equal contents.
pub fn elem_eq(a: &GreenElement, b: &GreenElement) -> (r: bool)
    ensures
        r == (a@ == b@),
    decreases *a,
{
    match (a, b) {
        (GreenElement::Node(x), GreenElement::Node(y)) => node_data_eq(&x.ptr, &y.ptr),
        (GreenElement::Token(x), GreenElement::Token(y)) => token_data_eq(&x.ptr, &y.ptr),
        (GreenElement::Node(_), GreenElement::Token(_)) => false,
        (GreenElement::Token(_), GreenElement::Node(_)) => false,
    }
}

impl PartialEq for GreenTokenData {
    /// `==` is structural: same kind and same text.
    fn eq(&self, other: &Self) -> bool {
        token_data_eq(self, other)
    }
}

impl vstd::std_specs::cmp::PartialEqSpecImpl for GreenTokenData {
    open spec fn obeys_eq_spec() -> bool {
        true
    }

    open spec fn eq_spec(&self, other: &Self) -> bool {
        self@ == other@
    }
}

impl PartialEq for GreenToken {
    /// `==` is structural; interned handles may also share one allocation,
    /// but equality never depends on that.
    fn eq(&self, other: &Self) -> bool {
        token_data_eq(&self.ptr, &other.ptr)
    }
}

impl vstd::std_specs::cmp::PartialEqSpecImpl for GreenToken {
    open spec fn obeys_eq_spec() -> bool {
        true
    }

    open spec fn eq_spec(&self, other: &Self) -> bool {
        self@ == other@
    }
}

impl PartialEq for GreenNodeData {
    /// `==` is structural: same kind and recursively equal children.
    fn eq(&self, other: &Self) -> bool {
        node_data_eq(self, other)
    }
}

impl vstd::std_specs::cmp::PartialEqSpecImpl for GreenNodeData {
    open spec fn obeys_eq_spec() -> bool {
        true
    }

    open spec fn eq_spec(&self, other: &Self) -> bool {
        self@ == other@
    }
}

impl PartialEq for GreenNode {
    /// `==` is structural; interned handles may also share one allocation,
    /// but equality never depends on that.
    fn eq(&self, other: &Self) -> bool {
        node_data_eq(&self.ptr, &other.ptr)
    }
}

impl vstd::std_specs::cmp::PartialEqSpecImpl for GreenNode {
    open spec fn obeys_eq_spec() -> bool {
        true
    }

    open spec fn eq_spec(&self, other: &Self) -> bool {
        self@ == other@
    }
}

impl PartialEq for GreenElement {
    /// `==` is structural: equal tags and equal contents.
    fn eq(&self, other: &Self) -> bool {
        elem_eq(self, other)
    }
}

impl vstd::std_specs::cmp::PartialEqSpecImpl for GreenElement {
    open spec fn obeys_eq_spec() -> bool {
        true
    }

    open spec fn eq_spec(&self, other: &Self) -> bool {
        self@ == other@
    }
}

} // verus!
