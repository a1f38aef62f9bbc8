//! Mathematical model of green trees.
//!
//! A green tree is modelled by the ghost datatype [`GreenView`]: a token is a
//! kind together with its text, a node is a kind, a memoized text length and
//! the sequence of child views. The spec functions here define what the text
//! covered by a tree is ([`text_of`]), when a tree is well formed
//! ([`wf_view`]: every stored length is the length of the covered text), and
//! how the text decomposes over children. The lemmas at the end are the
//! general laws of the library: lengths are sums of child lengths, and
//! replacing one child splices exactly that child's span of the text.

use vstd::prelude::*;

use crate::green::SyntaxKind;

verus! {

/// Ghost value of a green tree: pure structure and text.
#[verifier::ext_equal]
pub enum GreenView {
    /// A leaf: a kind tag and the covered text.
    Token { kind: SyntaxKind, text: Seq<char> },
    /// An interior node: a kind tag, the memoized length of the covered
    /// text, and the ordered child views.
    Node { kind: SyntaxKind, text_len: nat, children: Seq<GreenView> },
}

/// The kind tag of a tree, token or node.
pub open spec fn kind_of(v: GreenView) -> SyntaxKind {
    match v {
        GreenView::Token { kind, .. } => kind,
        GreenView::Node { kind, .. } => kind,
    }
}

/// True of interior nodes, false of tokens.
pub open spec fn is_node(v: GreenView) -> bool {
    v matches GreenView::Node { .. }
}

/// The children of a node; a token has none.
pub open spec fn children_of(v: GreenView) -> Seq<GreenView> {
    match v {
        GreenView::Token { .. } => Seq::empty(),
        GreenView::Node { children, .. } => children,
    }
}

/// The text covered by a tree: a token's own text, or the concatenation of
/// the children's texts in order.
pub open spec fn text_of(v: GreenView) -> Seq<char>
    decreases v,
{
    match v {
        GreenView::Token { text, .. } => text,
        GreenView::Node { children, .. } => texts_of(children),
    }
}

/// The concatenation of the texts of a sequence of trees, in order.
pub open spec fn texts_of(cs: Seq<GreenView>) -> Seq<char>
    decreases cs,
{
    if cs.len() == 0 {
        Seq::empty()
    } else {
        texts_of(cs.subrange(0, cs.len() - 1)) + text_of(cs[cs.len() - 1])
    }
}

/// The length of the text covered by a tree.
pub open spec fn len_of(v: GreenView) -> nat {
    text_of(v).len()
}

/// The sum of the covered-text lengths of a sequence of trees.
pub open spec fn sum_lens(cs: Seq<GreenView>) -> nat
    decreases cs,
{
    if cs.len() == 0 {
        0
    } else {
        sum_lens(cs.subrange(0, cs.len() - 1)) + len_of(cs[cs.len() - 1])
    }
}

/// Length of the text covered by the children before index `i`: the relative
/// offset of child `i` inside its parent.
pub open spec fn prefix_len(cs: Seq<GreenView>, i: int) -> nat {
    texts_of(cs.subrange(0, i)).len()
}

/// Well-formedness: at every node the stored `text_len` equals the length of
/// the covered text and fits a `usize`.
pub open spec fn wf_view(v: GreenView) -> bool
    decreases v,
{
    match v {
        GreenView::Token { .. } => true,
        GreenView::Node { text_len, children, .. } => {
            &&& text_len == texts_of(children).len()
            &&& text_len <= usize::MAX
            &&& forall|i: int| 0 <= i < children.len() ==> wf_view(#[trigger] children[i])
        },
    }
}

/// The node a builder or cache produces over `kind` and `children`: its
/// memoized length is exactly the length of the children's concatenated text.
pub open spec fn interned(kind: SyntaxKind, children: Seq<GreenView>) -> GreenView {
    GreenView::Node { kind, text_len: texts_of(children).len(), children }
}

/// Interning correctness: an interned node is determined by its kind and
/// children alone. Two builds from structurally equal inputs yield equal
/// values; two builds from different kinds or different children never do.
pub proof fn lemma_interning_correctness(
    k1: SyntaxKind,
    cs1: Seq<GreenView>,
    k2: SyntaxKind,
    cs2: Seq<GreenView>,
)
    ensures
        (interned(k1, cs1) == interned(k2, cs2)) <==> (k1 == k2 && cs1 == cs2),
{
}

/// `s` with the span `[from, to)` replaced by `t`.
pub open spec fn splice(s: Seq<char>, from: int, to: int, t: Seq<char>) -> Seq<char> {
    s.subrange(0, from) + t + s.subrange(to, s.len() as int)
}

/// Splicing a span of an embedded text splices the same span of the text it
/// is embedded in: if `p` is the slice of `s` starting at `off`, then
/// replacing `[a, b)` of `p` and re-inserting the result into `s` is the same
/// as replacing `[off + a, off + b)` of `s` directly.
pub proof fn lemma_splice_within(
    s: Seq<char>,
    off: int,
    p: Seq<char>,
    a: int,
    b: int,
    t: Seq<char>,
)
    requires
        0 <= off,
        off + p.len() <= s.len(),
        s.subrange(off, off + p.len()) == p,
        0 <= a <= b <= p.len(),
    ensures
        splice(s, off, off + p.len(), splice(p, a, b, t)) == splice(s, off + a, off + b, t),
{
    assert(s.subrange(0, off + a) =~= s.subrange(0, off) + p.subrange(0, a));
    assert(s.subrange(off + b, s.len() as int) =~= p.subrange(b, p.len() as int) + s.subrange(
        off + p.len(),
        s.len() as int,
    ));
    assert(splice(s, off, off + p.len(), splice(p, a, b, t)) =~= splice(s, off + a, off + b, t));
}

/// Splicing the whole of a text yields the replacement.
pub proof fn lemma_splice_all(s: Seq<char>, t: Seq<char>)
    ensures
        splice(s, 0, s.len() as int, t) == t,
{
    assert(splice(s, 0, s.len() as int, t) =~= t);
}

/// Appending a tree appends its text.
pub proof fn lemma_texts_of_push(cs: Seq<GreenView>, v: GreenView)
    ensures
        texts_of(cs.push(v)) == texts_of(cs) + text_of(v),
{
    let whole = cs.push(v);
    assert(whole.subrange(0, whole.len() - 1) =~= cs);
    assert(whole[whole.len() - 1] == v);
}

/// The text of a single tree.
pub proof fn lemma_texts_of_singleton(v: GreenView)
    ensures
        texts_of(seq![v]) == text_of(v),
{
    reveal_with_fuel(texts_of, 2);
    assert(seq![v].subrange(0, 0) =~= Seq::<GreenView>::empty());
    assert(texts_of(seq![v]) =~= text_of(v));
}

/// Concatenation of trees concatenates their texts.
pub proof fn lemma_texts_of_concat(a: Seq<GreenView>, b: Seq<GreenView>)
    ensures
        texts_of(a + b) == texts_of(a) + texts_of(b),
    decreases b,
{
    if b.len() == 0 {
        assert(a + b =~= a);
        assert(texts_of(a + b) =~= texts_of(a) + texts_of(b));
    } else {
        let front = b.subrange(0, b.len() - 1);
        lemma_texts_of_concat(a, front);
        let whole = a + b;
        assert(whole.subrange(0, whole.len() - 1) =~= a + front);
        assert(whole[whole.len() - 1] == b[b.len() - 1]);
        assert(texts_of(a + b) =~= texts_of(a) + texts_of(b));
    }
}

/// The text of a sequence of trees splits at any index.
pub proof fn lemma_texts_of_split(cs: Seq<GreenView>, i: int)
    requires
        0 <= i <= cs.len(),
    ensures
        texts_of(cs) == texts_of(cs.subrange(0, i)) + texts_of(
            cs.subrange(i, cs.len() as int),
        ),
{
    assert(cs =~= cs.subrange(0, i) + cs.subrange(i, cs.len() as int));
    lemma_texts_of_concat(cs.subrange(0, i), cs.subrange(i, cs.len() as int));
}

/// The offset of an earlier child never exceeds the offset of a later one,
/// and no child offset exceeds the total text length.
pub proof fn lemma_prefix_len_monotone(cs: Seq<GreenView>, i: int, j: int)
    requires
        0 <= i <= j <= cs.len(),
    ensures
        prefix_len(cs, i) <= prefix_len(cs, j) <= texts_of(cs).len(),
{
    let front = cs.subrange(0, j);
    assert(front.subrange(0, i) =~= cs.subrange(0, i));
    lemma_texts_of_split(front, i);
    lemma_texts_of_split(cs, j);
}

/// Law of lengths: the text covered by a sequence of trees is exactly as long
/// as the sum of the trees' covered-text lengths.
pub proof fn lemma_sum_lens(cs: Seq<GreenView>)
    ensures
        texts_of(cs).len() == sum_lens(cs),
    decreases cs,
{
    if cs.len() != 0 {
        lemma_sum_lens(cs.subrange(0, cs.len() - 1));
    }
}

/// Length invariant: in a well-formed node the memoized `text_len` is the sum
/// of the children's covered-text lengths; recursively, the same holds of
/// every child node.
pub proof fn lemma_node_len_is_sum_of_children(v: GreenView)
    requires
        wf_view(v),
        is_node(v),
    ensures
        v matches GreenView::Node { text_len, children, .. } ==> {
            &&& text_len == sum_lens(children)
            &&& forall|i: int| 0 <= i < children.len() ==> wf_view(#[trigger] children[i])
        },
{
    lemma_sum_lens(children_of(v));
}

/// Child offsets grow by exactly the length of the child stepped over.
pub proof fn lemma_prefix_len_step(cs: Seq<GreenView>, i: int)
    requires
        0 <= i < cs.len(),
    ensures
        prefix_len(cs, i + 1) == prefix_len(cs, i) + len_of(cs[i]),
{
    let front = cs.subrange(0, i + 1);
    assert(front.subrange(0, front.len() - 1) =~= cs.subrange(0, i));
    assert(front[front.len() - 1] == cs[i]);
}

/// The text of a sequence of trees decomposes around any one tree: the part
/// before it, its own text, and the part after it.
pub proof fn lemma_texts_of_decompose(cs: Seq<GreenView>, i: int)
    requires
        0 <= i < cs.len(),
    ensures
        texts_of(cs) == texts_of(cs.subrange(0, i)) + text_of(cs[i]) + texts_of(
            cs.subrange(i + 1, cs.len() as int),
        ),
        texts_of(cs).len() == prefix_len(cs, i) + len_of(cs[i]) + texts_of(
            cs.subrange(i + 1, cs.len() as int),
        ).len(),
{
    let n = cs.len() as int;
    assert(cs =~= cs.subrange(0, i) + seq![cs[i]] + cs.subrange(i + 1, n));
    lemma_texts_of_concat(cs.subrange(0, i) + seq![cs[i]], cs.subrange(i + 1, n));
    lemma_texts_of_concat(cs.subrange(0, i), seq![cs[i]]);
    lemma_texts_of_singleton(cs[i]);
}

/// Replacing the tree at index `i` splices its text span: the text before and
/// after the replaced child's span is unchanged, and the span itself now holds
/// the new tree's text.
pub proof fn lemma_texts_of_update(cs: Seq<GreenView>, i: int, u: GreenView)
    requires
        0 <= i < cs.len(),
    ensures
        texts_of(cs.update(i, u)) == texts_of(cs.subrange(0, i)) + text_of(u) + texts_of(
            cs.subrange(i + 1, cs.len() as int),
        ),
        texts_of(cs.update(i, u)) == splice(
            texts_of(cs),
            prefix_len(cs, i) as int,
            prefix_len(cs, i) as int + len_of(cs[i]),
            text_of(u),
        ),
{
    let n = cs.len() as int;
    let before = cs.subrange(0, i);
    let after = cs.subrange(i + 1, n);
    assert(cs.update(i, u) =~= before + seq![u] + after);
    lemma_texts_of_concat(before + seq![u], after);
    lemma_texts_of_concat(before, seq![u]);
    lemma_texts_of_singleton(u);
    assert(cs =~= before + seq![cs[i]] + after);
    lemma_texts_of_concat(before + seq![cs[i]], after);
    lemma_texts_of_concat(before, seq![cs[i]]);
    lemma_texts_of_singleton(cs[i]);
    let s = texts_of(cs);
    let from = prefix_len(cs, i) as int;
    let to = from + len_of(cs[i]);
    assert(s.subrange(0, from) =~= texts_of(before));
    assert(s.subrange(to, s.len() as int) =~= texts_of(after));
    assert(texts_of(cs.update(i, u)) =~= splice(s, from, to, text_of(u)));
}

} // verus!
