//! The typed view layer: schema-specific wrappers over red nodes.
//!
//! A view accepts a red node exactly when the node's kind matches the view's
//! tag; a rejected cast is no error, just none. Views add no algorithm of
//! their own — everything is child iteration and kind comparison — and the
//! little struct grammar here (`struct Name { field: Type, ... }`) shows how a
//! consumer builds on the core. The `make_*` helpers at the end assemble the
//! demo tree directly, without the builder.

use vstd::prelude::*;

use crate::green::{
    elems_view, lemma_elems_view_len, lemma_elems_view_push, wf_elems,
    GreenElement, GreenNode, GreenToken, SyntaxKind,
};
use crate::kinds;
use crate::model::{
    children_of, interned, is_node, kind_of, len_of, text_of, texts_of, wf_view, GreenView,
};
use crate::red::{child_at, red_elem_wf, red_wf, RedElement, RedNode, RedNodeData};

verus! {

/// The green child at index `i` is a node of kind `k`.
pub open spec fn kind_node_at(parent: RedNodeData, k: SyntaxKind, i: int) -> bool {
    let cs = children_of(parent.green@);
    is_node(cs[i]) && kind_of(cs[i]) == k
}

/// A typed view over a red node of one fixed kind.
pub trait AstNode: Sized {
    /// The kind tag this view accepts.
    spec fn view_kind() -> SyntaxKind;

    /// The wrapped red node, as a ghost value.
    spec fn wrapped(&self) -> RedNodeData;

    /// Capability cast: accepts the node exactly when its kind matches;
    /// rejection is none, never an error.
    fn cast(node: RedNode) -> (r: Option<Self>)
        requires
            red_wf(*node),
        ensures
            (r is Some) <==> kind_of((*node).green@) == Self::view_kind(),
            r matches Some(v) ==> v.wrapped() == *node && red_wf(v.wrapped()) && kind_of(
                v.wrapped().green@,
            ) == Self::view_kind(),
    ;

    /// The wrapped syntax node.
    fn syntax(&self) -> (r: &RedNode)
        ensures
            **r == self.wrapped(),
    ;
}

/// The first child node of kind `N::view_kind()`, cast into its view; none
/// when no child node has that kind.
pub fn child_of_type<N: AstNode>(node: &RedNode) -> (r: Option<N>)
    requires
        red_wf(**node),
    ensures
        match r {
            Some(v) => exists|i: int|
                {
                    &&& 0 <= i < children_of((**node).green@).len()
                    &&& #[trigger] kind_node_at(**node, N::view_kind(), i)
                    &&& forall|j: int| 0 <= j < i ==> !kind_node_at(**node, N::view_kind(), j)
                    &&& red_wf(v.wrapped())
                    &&& v.wrapped().green@ == children_of((**node).green@)[i]
                    &&& v.wrapped().index_in_parent == i
                    &&& v.wrapped().parent matches Some(q) && *q == **node
                },
            None => forall|i: int|
                0 <= i < children_of((**node).green@).len() ==> !kind_node_at(
                    **node,
                    N::view_kind(),
                    i,
                ),
        },
{
    let children = RedNodeData::children(node);
    let mut i: usize = 0;
    while i < children.len()
        invariant
            red_wf(**node),
            children@.len() == children_of((**node).green@).len(),
            forall|m: int|
                0 <= m < children@.len() ==> child_at(**node, m, #[trigger] children@[m])
                    && red_elem_wf(children@[m]),
            i <= children.len(),
            forall|j: int| 0 <= j < i ==> !kind_node_at(**node, N::view_kind(), j),
        decreases children.len() - i,
    {
        match children[i].as_node() {
            Some(rc) => {
                match N::cast(rc) {
                    Some(v) => {
                        proof {
                            assert(kind_node_at(**node, N::view_kind(), i as int));
                        }
                        return Some(v);
                    },
                    None => {},
                }
            },
            None => {},
        }
        i = i + 1;
    }
    None
}

/// View of a `STRUCT` node.
pub struct Struct(pub RedNode);

/// View of a `FIELD` node.
pub struct Field(pub RedNode);

/// View of a `NAME` node.
pub struct Name(pub RedNode);

impl AstNode for Struct {
    open spec fn view_kind() -> SyntaxKind {
        SyntaxKind(kinds::STRUCT)
    }

    open spec fn wrapped(&self) -> RedNodeData {
        *self.0
    }

    fn cast(node: RedNode) -> (r: Option<Self>) {
        if node.kind() == SyntaxKind(kinds::STRUCT) {
            Some(Struct(node))
        } else {
            None
        }
    }

    fn syntax(&self) -> (r: &RedNode) {
        &self.0
    }
}

impl AstNode for Field {
    open spec fn view_kind() -> SyntaxKind {
        SyntaxKind(kinds::FIELD)
    }

    open spec fn wrapped(&self) -> RedNodeData {
        *self.0
    }

    fn cast(node: RedNode) -> (r: Option<Self>) {
        if node.kind() == SyntaxKind(kinds::FIELD) {
            Some(Field(node))
        } else {
            None
        }
    }

    fn syntax(&self) -> (r: &RedNode) {
        &self.0
    }
}

impl AstNode for Name {
    open spec fn view_kind() -> SyntaxKind {
        SyntaxKind(kinds::NAME)
    }

    open spec fn wrapped(&self) -> RedNodeData {
        *self.0
    }

    fn cast(node: RedNode) -> (r: Option<Self>) {
        if node.kind() == SyntaxKind(kinds::NAME) {
            Some(Name(node))
        } else {
            None
        }
    }

    fn syntax(&self) -> (r: &RedNode) {
        &self.0
    }
}

/// The indices of the children of `cs` that are nodes of kind `k`, in order.
pub open spec fn kind_node_indices(cs: Seq<GreenView>, k: SyntaxKind) -> Seq<int>
    decreases cs,
{
    if cs.len() == 0 {
        Seq::empty()
    } else {
        let front = kind_node_indices(cs.subrange(0, cs.len() - 1), k);
        if is_node(cs[cs.len() - 1]) && kind_of(cs[cs.len() - 1]) == k {
            front.push(cs.len() - 1)
        } else {
            front
        }
    }
}

impl Struct {
    /// The struct's name view: its first child node of kind `NAME`.
    pub fn name(&self) -> (r: Option<Name>)
        requires
            red_wf(self.wrapped()),
        ensures
            match r {
                Some(v) => exists|i: int|
                    {
                        &&& 0 <= i < children_of(self.wrapped().green@).len()
                        &&& #[trigger] kind_node_at(self.wrapped(), SyntaxKind(kinds::NAME), i)
                        &&& forall|j: int|
                            0 <= j < i ==> !kind_node_at(self.wrapped(), SyntaxKind(kinds::NAME), j)
                        &&& red_wf(v.wrapped())
                        &&& v.wrapped().green@ == children_of(self.wrapped().green@)[i]
                    },
                None => forall|i: int|
                    0 <= i < children_of(self.wrapped().green@).len() ==> !kind_node_at(
                        self.wrapped(),
                        SyntaxKind(kinds::NAME),
                        i,
                    ),
            },
    {
        child_of_type(self.syntax())
    }

    /// The struct's field views: every child node of kind `FIELD`, in
    /// declaration order.
    #[verifier::loop_isolation(false)]
    pub fn fields(&self) -> (r: Vec<Field>)
        requires
            red_wf(self.wrapped()),
        ensures
            ({
                let cs = children_of(self.wrapped().green@);
                let idx = kind_node_indices(cs, SyntaxKind(kinds::FIELD));
                &&& r@.len() == idx.len()
                &&& forall|m: int|
                    0 <= m < idx.len() ==> {
                        &&& 0 <= idx[m] < cs.len()
                        &&& kind_node_at(self.wrapped(), SyntaxKind(kinds::FIELD), idx[m])
                        &&& red_wf((#[trigger] r@[m]).wrapped())
                        &&& r@[m].wrapped().green@ == cs[idx[m]]
                        &&& r@[m].wrapped().index_in_parent == idx[m]
                        &&& r@[m].wrapped().parent matches Some(q) && *q == self.wrapped()
                    }
            }),
    {
        let ghost cs = children_of(self.wrapped().green@);
        let ghost k = SyntaxKind(kinds::FIELD);
        let children = RedNodeData::children(self.syntax());
        let mut out: Vec<Field> = Vec::new();
        let mut i: usize = 0;
        while i < children.len()
            invariant
                children@.len() == cs.len(),
                forall|m: int|
                    0 <= m < children@.len() ==> child_at(self.wrapped(), m, #[trigger] children@[m])
                        && red_elem_wf(children@[m]),
                i <= children.len(),
                ({
                    let idx = kind_node_indices(cs.subrange(0, i as int), k);
                    &&& out@.len() == idx.len()
                    &&& forall|m: int|
                        0 <= m < idx.len() ==> {
                            &&& 0 <= idx[m] < cs.len()
                            &&& kind_node_at(self.wrapped(), k, idx[m])
                            &&& red_wf((#[trigger] out@[m]).wrapped())
                            &&& out@[m].wrapped().green@ == cs[idx[m]]
                            &&& out@[m].wrapped().index_in_parent == idx[m]
                            &&& out@[m].wrapped().parent matches Some(q) && *q == self.wrapped()
                        }
                }),
            decreases children.len() - i,
        {
            proof {
                assert(cs.subrange(0, i + 1).subrange(0, i as int) =~= cs.subrange(0, i as int));
                assert(cs.subrange(0, i + 1)[i as int] == cs[i as int]);
            }
            match children[i].as_node() {
                Some(rc) => {
                    match Field::cast(rc) {
                        Some(f) => {
                            out.push(f);
                        },
                        None => {},
                    }
                },
                None => {},
            }
            i = i + 1;
        }
        proof {
            assert(cs.subrange(0, cs.len() as int) =~= cs);
        }
        out
    }
}

/// Ghost value of a token of kind tag `k` over text `t`.
pub open spec fn tok_view(k: u16, t: Seq<char>) -> GreenView {
    GreenView::Token { kind: SyntaxKind(k), text: t }
}

/// The total covered-text length of a sequence of green nodes.
pub open spec fn nodes_total_len(fs: Seq<GreenNode>) -> nat
    decreases fs,
{
    if fs.len() == 0 {
        0
    } else {
        nodes_total_len(fs.subrange(0, fs.len() - 1)) + len_of(fs[fs.len() - 1]@)
    }
}

/// Appends one element, carrying its view, its text and well-formedness
/// along.
fn push_elem(children: &mut Vec<GreenElement>, e: GreenElement)
    requires
        wf_elems(old(children)@),
        wf_view(e@),
    ensures
        final(children)@ == old(children)@.push(e),
        elems_view(final(children)@) == elems_view(old(children)@).push(e@),
        texts_of(elems_view(final(children)@)) == texts_of(elems_view(old(children)@)) + text_of(
            e@,
        ),
        wf_elems(final(children)@),
{
    proof {
        lemma_elems_view_push(children@, e);
        crate::model::lemma_texts_of_push(elems_view(children@), e@);
        crate::green::lemma_wf_elems_push(children@, e);
    }
    children.push(e);
}

/// A fresh token.
pub fn make_token(kind: SyntaxKind, text: &str) -> (t: GreenToken)
    ensures
        t@ == (GreenView::Token { kind, text: text@ }),
{
    GreenToken::new(kind, text)
}

/// A fresh node over the given children.
pub fn make_node(kind: SyntaxKind, children: Vec<GreenElement>) -> (n: GreenNode)
    requires
        wf_elems(children@),
        texts_of(elems_view(children@)).len() <= usize::MAX,
    ensures
        n@ == interned(kind, elems_view(children@)),
        wf_view(n@),
{
    GreenNode::new(kind, children)
}

/// A whitespace token.
pub fn make_whitespace(ws: &str) -> (t: GreenToken)
    ensures
        t@ == tok_view(kinds::WHITESPACE, ws@),
{
    make_token(SyntaxKind(kinds::WHITESPACE), ws)
}

/// A `NAME` node over one identifier token.
pub fn make_name(name: &str) -> (n: GreenNode)
    requires
        name@.len() <= usize::MAX,
    ensures
        n@ == interned(SyntaxKind(kinds::NAME), seq![tok_view(kinds::IDENT, name@)]),
        wf_view(n@),
        len_of(n@) == name@.len(),
{
    let mut children: Vec<GreenElement> = Vec::new();
    proof {
        lemma_elems_view_len(children@);
        assert(elems_view(children@) =~= Seq::<GreenView>::empty());
    }
    push_elem(&mut children, GreenElement::Token(make_token(SyntaxKind(kinds::IDENT), name)));
    proof {
        assert(elems_view(children@) =~= seq![tok_view(kinds::IDENT, name@)]);
        crate::model::lemma_texts_of_singleton(tok_view(kinds::IDENT, name@));
    }
    make_node(SyntaxKind(kinds::NAME), children)
}

/// A `FIELD` node rendering as `    name: ty,\n`.
pub fn make_field_name(name: &str, ty: &str) -> (f: GreenNode)
    requires
        name@.len() + ty@.len() + 8 <= usize::MAX,
    ensures
        ({
            let cs = children_of(f@);
            &&& wf_view(f@)
            &&& is_node(f@)
            &&& kind_of(f@) == SyntaxKind(kinds::FIELD)
            &&& cs.len() == 7
            &&& cs[0] == tok_view(kinds::WHITESPACE, "    "@)
            &&& cs[1] == interned(SyntaxKind(kinds::NAME), seq![tok_view(kinds::IDENT, name@)])
            &&& cs[2] == tok_view(kinds::COLON, ":"@)
            &&& cs[3] == tok_view(kinds::WHITESPACE, " "@)
            &&& cs[4] == interned(
                SyntaxKind(kinds::TYPE),
                seq![tok_view(kinds::IDENT, ty@)],
            )
            &&& cs[5] == tok_view(kinds::COMMA, ","@)
            &&& cs[6] == tok_view(kinds::WHITESPACE, "\n"@)
        }),
{
    proof {
        reveal_strlit("    ");
        reveal_strlit(":");
        reveal_strlit(" ");
        reveal_strlit(",");
        reveal_strlit("\n");
    }
    let ty_node = {
        let mut inner: Vec<GreenElement> = Vec::new();
        proof {
            lemma_elems_view_len(inner@);
            assert(elems_view(inner@) =~= Seq::<GreenView>::empty());
        }
        push_elem(&mut inner, GreenElement::Token(make_token(SyntaxKind(kinds::IDENT), ty)));
        proof {
            assert(elems_view(inner@) =~= seq![tok_view(kinds::IDENT, ty@)]);
            crate::model::lemma_texts_of_singleton(tok_view(kinds::IDENT, ty@));
        }
        make_node(SyntaxKind(kinds::TYPE), inner)
    };
    let mut children: Vec<GreenElement> = Vec::new();
    proof {
        lemma_elems_view_len(children@);
        assert(elems_view(children@) =~= Seq::<GreenView>::empty());
        assert(texts_of(elems_view(children@)) =~= Seq::<char>::empty());
    }
    push_elem(&mut children, GreenElement::Token(make_whitespace("    ")));
    push_elem(&mut children, GreenElement::Node(make_name(name)));
    push_elem(&mut children, GreenElement::Token(make_token(SyntaxKind(kinds::COLON), ":")));
    push_elem(&mut children, GreenElement::Token(make_whitespace(" ")));
    push_elem(&mut children, GreenElement::Node(ty_node));
    push_elem(&mut children, GreenElement::Token(make_token(SyntaxKind(kinds::COMMA), ",")));
    push_elem(&mut children, GreenElement::Token(make_whitespace("\n")));
    let f = make_node(SyntaxKind(kinds::FIELD), children);
    proof {
        lemma_elems_view_len(children@);
    }
    f
}

/// A `STRUCT` node rendering as `struct name {\n<fields>}`.
#[verifier::loop_isolation(false)]
pub fn make_struct(name: &str, fields: Vec<GreenNode>) -> (s: GreenNode)
    requires
        forall|i: int| 0 <= i < fields@.len() ==> wf_view((#[trigger] fields@[i])@),
        name@.len() + nodes_total_len(fields@) + 11 <= usize::MAX,
    ensures
        ({
            let cs = children_of(s@);
            &&& wf_view(s@)
            &&& is_node(s@)
            &&& kind_of(s@) == SyntaxKind(kinds::STRUCT)
            &&& cs.len() == 7 + fields@.len()
            &&& cs[0] == tok_view(kinds::STRUCT_KW, "struct"@)
            &&& cs[1] == tok_view(kinds::WHITESPACE, " "@)
            &&& cs[2] == interned(SyntaxKind(kinds::NAME), seq![tok_view(kinds::IDENT, name@)])
            &&& cs[3] == tok_view(kinds::WHITESPACE, " "@)
            &&& cs[4] == tok_view(kinds::L_CURLY, "{"@)
            &&& cs[5] == tok_view(kinds::WHITESPACE, "\n"@)
            &&& forall|m: int| 0 <= m < fields@.len() ==> cs[6 + m] == (#[trigger] fields@[m])@
            &&& cs[6 + fields@.len() as int] == tok_view(kinds::R_CURLY, "}"@)
        }),
{
    proof {
        reveal_strlit("struct");
        reveal_strlit(" ");
        reveal_strlit("{");
        reveal_strlit("\n");
        reveal_strlit("}");
    }
    let mut children: Vec<GreenElement> = Vec::new();
    proof {
        lemma_elems_view_len(children@);
        assert(elems_view(children@) =~= Seq::<GreenView>::empty());
        assert(texts_of(elems_view(children@)) =~= Seq::<char>::empty());
    }
    push_elem(&mut children, GreenElement::Token(make_token(SyntaxKind(kinds::STRUCT_KW), "struct")));
    push_elem(&mut children, GreenElement::Token(make_whitespace(" ")));
    push_elem(&mut children, GreenElement::Node(make_name(name)));
    push_elem(&mut children, GreenElement::Token(make_whitespace(" ")));
    push_elem(&mut children, GreenElement::Token(make_token(SyntaxKind(kinds::L_CURLY), "{")));
    push_elem(&mut children, GreenElement::Token(make_whitespace("\n")));
    let ghost head = elems_view(children@);
    let ghost head_len = texts_of(head).len();
    let mut i: usize = 0;
    while i < fields.len()
        invariant
            wf_elems(children@),
            children@.len() == 6 + i as int,
            elems_view(children@) == head + nodes_seq_view(fields@.subrange(0, i as int)),
            texts_of(elems_view(children@)).len() == head_len + nodes_total_len(
                fields@.subrange(0, i as int),
            ),
            i <= fields@.len(),
        decreases fields@.len() - i,
    {
        proof {
            assert(fields@.subrange(0, i + 1).subrange(0, i as int) =~= fields@.subrange(
                0,
                i as int,
            ));
            assert(fields@.subrange(0, i + 1)[i as int] == fields@[i as int]);
            lemma_nodes_total_le(fields@, i as int + 1);
        }
        push_elem(&mut children, GreenElement::Node(fields[i].clone()));
        proof {
            assert(elems_view(children@) =~= head + nodes_seq_view(fields@.subrange(0, i + 1)));
        }
        i = i + 1;
    }
    proof {
        assert(fields@.subrange(0, fields@.len() as int) =~= fields@);
    }
    push_elem(&mut children, GreenElement::Token(make_token(SyntaxKind(kinds::R_CURLY), "}")));
    let s = make_node(SyntaxKind(kinds::STRUCT), children);
    proof {
        lemma_elems_view_len(children@);
        lemma_nodes_seq_view_len(fields@);
    }
    s
}

/// Ghost values of a sequence of green nodes, in order.
pub open spec fn nodes_seq_view(fs: Seq<GreenNode>) -> Seq<GreenView>
    decreases fs,
{
    if fs.len() == 0 {
        Seq::empty()
    } else {
        nodes_seq_view(fs.subrange(0, fs.len() - 1)).push(fs[fs.len() - 1]@)
    }
}

/// A view of a sequence of nodes is as long as the sequence, views each node
/// in place, and its total text length is the nodes' total length.
pub proof fn lemma_nodes_seq_view_len(fs: Seq<GreenNode>)
    ensures
        nodes_seq_view(fs).len() == fs.len(),
        forall|i: int| 0 <= i < fs.len() ==> nodes_seq_view(fs)[i] == (#[trigger] fs[i])@,
    decreases fs,
{
    if fs.len() != 0 {
        lemma_nodes_seq_view_len(fs.subrange(0, fs.len() - 1));
        assert forall|i: int| 0 <= i < fs.len() implies nodes_seq_view(fs)[i] == (
        #[trigger] fs[i])@ by {
            if i < fs.len() - 1 {
                assert(fs.subrange(0, fs.len() - 1)[i] == fs[i]);
            }
        }
    }
}

/// The total length of a prefix of nodes never exceeds the total of all.
pub proof fn lemma_nodes_total_le(fs: Seq<GreenNode>, i: int)
    requires
        0 <= i <= fs.len(),
    ensures
        nodes_total_len(fs.subrange(0, i)) <= nodes_total_len(fs),
    decreases fs.len() - i,
{
    if i < fs.len() {
        lemma_nodes_total_le(fs, i + 1);
        assert(fs.subrange(0, i + 1).subrange(0, i) =~= fs.subrange(0, i));
        assert(fs.subrange(0, i + 1)[i] == fs[i]);
        assert(nodes_total_len(fs.subrange(0, i)) <= nodes_total_len(fs.subrange(0, i + 1)));
    } else {
        assert(fs.subrange(0, i) =~= fs);
    }
}

impl Field {
    /// The field's name view: its first child node of kind `NAME`.
    pub fn name(&self) -> (r: Option<Name>)
        requires
            red_wf(self.wrapped()),
        ensures
            match r {
                Some(v) => exists|i: int|
                    {
                        &&& 0 <= i < children_of(self.wrapped().green@).len()
                        &&& #[trigger] kind_node_at(self.wrapped(), SyntaxKind(kinds::NAME), i)
                        &&& forall|j: int|
                            0 <= j < i ==> !kind_node_at(self.wrapped(), SyntaxKind(kinds::NAME), j)
                        &&& red_wf(v.wrapped())
                        &&& v.wrapped().green@ == children_of(self.wrapped().green@)[i]
                    },
                None => forall|i: int|
                    0 <= i < children_of(self.wrapped().green@).len() ==> !kind_node_at(
                        self.wrapped(),
                        SyntaxKind(kinds::NAME),
                        i,
                    ),
            },
    {
        child_of_type(self.syntax())
    }
}

} // verus!
