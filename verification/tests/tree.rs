use redgreen::kinds;
use redgreen::{
    make_field_name, make_struct, AstNode, GreenElement, GreenNode, GreenNodeBuilder, GreenToken,
    NodeCache, RedNodeData, Struct, SyntaxKind, TreeError,
};

fn num(b: &mut GreenNodeBuilder, text: &str) {
    b.token(SyntaxKind(kinds::NUMBER), text);
}

fn ws(b: &mut GreenNodeBuilder, text: &str) {
    b.token(SyntaxKind(kinds::WHITESPACE), text);
}

/// Builds `1 * 2 + 1 * 2` as a BIN_EXPR over two multiplication BIN_EXPRs.
fn one_times_two_plus_one_times_two() -> GreenNode {
    let mut b = GreenNodeBuilder::new();
    b.start_node(SyntaxKind(kinds::BIN_EXPR));
    b.start_node(SyntaxKind(kinds::BIN_EXPR));
    num(&mut b, "1");
    ws(&mut b, " ");
    b.token(SyntaxKind(kinds::STAR), "*");
    ws(&mut b, " ");
    num(&mut b, "2");
    b.finish_node().unwrap();
    ws(&mut b, " ");
    b.token(SyntaxKind(kinds::PLUS), "+");
    ws(&mut b, " ");
    b.start_node(SyntaxKind(kinds::BIN_EXPR));
    num(&mut b, "1");
    ws(&mut b, " ");
    b.token(SyntaxKind(kinds::STAR), "*");
    ws(&mut b, " ");
    num(&mut b, "2");
    b.finish_node().unwrap();
    b.finish_node().unwrap();
    b.finish().unwrap()
}

#[test]
fn ask_smoke_test() {
    let strukt = make_struct(
        "Foo",
        vec![
            make_field_name("foo", "String"),
            make_field_name("bar", "IpAddr"),
        ],
    );

    let strukt = Struct::cast(RedNodeData::new_root(strukt)).unwrap();
    println!("{}", strukt.name().unwrap().0.to_text());
    for (i, field) in strukt.fields().into_iter().enumerate() {
        println!("field {}: {}", i, field.0.to_text())
    }
}

#[test]
fn typed_views_read_names_in_order() {
    let strukt = make_struct(
        "Foo",
        vec![
            make_field_name("foo", "String"),
            make_field_name("bar", "IpAddr"),
        ],
    );
    assert_eq!(
        strukt.to_text(),
        "struct Foo {\n    foo: String,\n    bar: IpAddr,\n}"
    );
    let strukt = Struct::cast(RedNodeData::new_root(strukt)).unwrap();
    assert_eq!(strukt.name().unwrap().0.to_text(), "Foo");
    let names: Vec<String> = strukt
        .fields()
        .into_iter()
        .map(|f| f.name().unwrap().0.to_text())
        .collect();
    assert_eq!(names, vec!["foo".to_string(), "bar".to_string()]);
}

#[test]
fn cast_of_wrong_kind_is_none() {
    let strukt = make_struct("Foo", vec![make_field_name("foo", "String")]);
    let root = RedNodeData::new_root(strukt);
    assert!(redgreen::Name::cast(root).is_none());
}

#[test]
fn builder_renders_expression_exactly() {
    let root = one_times_two_plus_one_times_two();
    assert_eq!(root.to_text(), "1 * 2 + 1 * 2");
    assert_eq!(root.kind(), SyntaxKind(kinds::BIN_EXPR));
    assert_eq!(root.text_len(), 13);
}

#[test]
fn replace_child_gives_new_root_and_keeps_old() {
    let green = one_times_two_plus_one_times_two();
    let red = RedNodeData::new_root(green);
    let kids = RedNodeData::children(&red);
    assert_eq!(kids.len(), 5);
    let mult2 = kids[4].as_node().unwrap();
    assert_eq!(mult2.to_text(), "1 * 2");
    let three = GreenElement::Token(GreenToken::new(SyntaxKind(kinds::NUMBER), "3"));
    let new_root = RedNodeData::replace_child(&mult2, 4, three).unwrap();
    assert_eq!(new_root.to_text(), "1 * 2 + 1 * 3");
    assert_eq!(red.to_text(), "1 * 2 + 1 * 2");
    assert_eq!(mult2.to_text(), "1 * 2");
}

#[test]
fn replace_child_rejects_bad_index() {
    let green = one_times_two_plus_one_times_two();
    let red = RedNodeData::new_root(green);
    let extra = GreenElement::Token(GreenToken::new(SyntaxKind(kinds::NUMBER), "9"));
    let r = RedNodeData::replace_child(&red, 5, extra);
    assert_eq!(r.err(), Some(TreeError::InvalidChildIndex));
    let extra = GreenElement::Token(GreenToken::new(SyntaxKind(kinds::NUMBER), "9"));
    assert_eq!(
        red.green().data().replace_child(99, extra).err(),
        Some(TreeError::InvalidChildIndex)
    );
}

#[test]
fn green_replace_child_is_pure() {
    let green = one_times_two_plus_one_times_two();
    let plus_tok = GreenElement::Token(GreenToken::new(SyntaxKind(kinds::PLUS), "-"));
    let swapped = green.data().replace_child(2, plus_tok).unwrap();
    assert_eq!(swapped.to_text(), "1 * 2 - 1 * 2");
    assert_eq!(green.to_text(), "1 * 2 + 1 * 2");
}

#[test]
fn child_containing_range_finds_star_token() {
    let green = one_times_two_plus_one_times_two();
    let red = RedNodeData::new_root(green);
    let kids = RedNodeData::children(&red);
    let mult1 = kids[0].as_node().unwrap();
    let star = RedNodeData::child_containing_range(&mult1, (2, 3)).unwrap();
    assert_eq!(star.kind(), SyntaxKind(kinds::STAR));
    assert_eq!(star.to_text(), "*");
    assert_eq!(star.text_offset(), 2);
}

#[test]
fn child_containing_range_rejects_boundary_crossers() {
    let green = one_times_two_plus_one_times_two();
    let red = RedNodeData::new_root(green);
    let kids = RedNodeData::children(&red);
    let mult1 = kids[0].as_node().unwrap();
    assert!(RedNodeData::child_containing_range(&mult1, (1, 3)).is_none());
    assert!(RedNodeData::child_containing_range(&mult1, (4, 6)).is_none());
    // from the root, the same range is inside the whole first multiplication
    let from_root = RedNodeData::child_containing_range(&red, (2, 3)).unwrap();
    assert_eq!(from_root.kind(), SyntaxKind(kinds::BIN_EXPR));
    assert_eq!(from_root.to_text(), "1 * 2");
}

#[test]
fn checkpoint_wraps_suffix_into_new_node() {
    let mut b = GreenNodeBuilder::new();
    b.start_node(SyntaxKind(kinds::TYPE));
    b.token(SyntaxKind(kinds::NUMBER), "1");
    let cp = b.checkpoint();
    b.token(SyntaxKind(kinds::PLUS), "+");
    b.token(SyntaxKind(kinds::NUMBER), "2");
    b.start_node_at(cp, SyntaxKind(kinds::BIN_EXPR));
    b.finish_node().unwrap();
    b.finish_node().unwrap();
    let root = b.finish().unwrap();
    assert_eq!(root.to_text(), "1+2");
    let red = RedNodeData::new_root(root);
    let kids = RedNodeData::children(&red);
    assert_eq!(kids.len(), 2);
    assert_eq!(kids[0].kind(), SyntaxKind(kinds::NUMBER));
    assert_eq!(kids[0].to_text(), "1");
    assert_eq!(kids[1].kind(), SyntaxKind(kinds::BIN_EXPR));
    assert_eq!(kids[1].to_text(), "+2");
    let wrapped = kids[1].as_node().unwrap();
    let inner = RedNodeData::children(&wrapped);
    assert_eq!(inner.len(), 2);
    assert_eq!(inner[0].to_text(), "+");
    assert_eq!(inner[1].to_text(), "2");
}

#[test]
fn unbalanced_builds_are_rejected() {
    let mut b = GreenNodeBuilder::new();
    assert_eq!(b.finish_node().err(), Some(TreeError::UnbalancedTree));

    let mut b = GreenNodeBuilder::new();
    b.start_node(SyntaxKind(kinds::BIN_EXPR));
    assert_eq!(b.finish().err(), Some(TreeError::UnbalancedTree));

    let mut b = GreenNodeBuilder::new();
    b.token(SyntaxKind(kinds::NUMBER), "1");
    assert_eq!(b.finish().err(), Some(TreeError::UnbalancedTree));

    let b = GreenNodeBuilder::new();
    assert_eq!(b.finish().err(), Some(TreeError::UnbalancedTree));
}

#[test]
fn interned_tokens_share_one_allocation() {
    let mut cache = NodeCache::new();
    let a = cache.intern_token(SyntaxKind(kinds::WHITESPACE), " ");
    let b = cache.intern_token(SyntaxKind(kinds::WHITESPACE), " ");
    assert!(std::sync::Arc::ptr_eq(&a.ptr, &b.ptr));
    assert!(a == b);
    assert_eq!(a.text(), b.text());
    let c = cache.intern_token(SyntaxKind(kinds::NUMBER), " ");
    assert!(!std::sync::Arc::ptr_eq(&a.ptr, &c.ptr));
    let d = cache.intern_token(SyntaxKind(kinds::WHITESPACE), "  ");
    assert!(!std::sync::Arc::ptr_eq(&a.ptr, &d.ptr));
}

#[test]
fn interned_nodes_share_one_allocation() {
    let mut cache = NodeCache::new();
    let make_children = |cache: &mut NodeCache| {
        vec![
            GreenElement::Token(cache.intern_token(SyntaxKind(kinds::NUMBER), "1")),
            GreenElement::Token(cache.intern_token(SyntaxKind(kinds::PLUS), "+")),
        ]
    };
    let cs1 = make_children(&mut cache);
    let cs2 = make_children(&mut cache);
    let n1 = cache.intern_node(SyntaxKind(kinds::BIN_EXPR), cs1);
    let n2 = cache.intern_node(SyntaxKind(kinds::BIN_EXPR), cs2);
    assert!(std::sync::Arc::ptr_eq(&n1.ptr, &n2.ptr));
    assert!(n1 == n2);
    let cs3 = make_children(&mut cache);
    let n3 = cache.intern_node(SyntaxKind(kinds::TYPE), cs3);
    assert!(!std::sync::Arc::ptr_eq(&n1.ptr, &n3.ptr));
    assert!(n1 != n3);
}

#[test]
fn builder_uses_interning_across_subtrees() {
    let green = one_times_two_plus_one_times_two();
    let red = RedNodeData::new_root(green);
    let kids = RedNodeData::children(&red);
    let m1 = kids[0].as_node().unwrap();
    let m2 = kids[4].as_node().unwrap();
    // structurally identical multiplication subtrees share one green node
    assert!(std::sync::Arc::ptr_eq(&m1.green().ptr, &m2.green().ptr));
}

#[test]
fn node_text_len_is_sum_of_children() {
    let green = one_times_two_plus_one_times_two();
    let red = RedNodeData::new_root(green);
    let kids = RedNodeData::children(&red);
    let mut sum: usize = 0;
    for k in &kids {
        sum += k.text_len();
    }
    assert_eq!(red.text_len(), sum);
    assert_eq!(red.text_len(), 13);
    let m1 = kids[0].as_node().unwrap();
    assert_eq!(m1.text_len(), 5);
}

#[test]
fn offsets_accumulate_across_children() {
    let green = one_times_two_plus_one_times_two();
    let red = RedNodeData::new_root(green);
    let kids = RedNodeData::children(&red);
    let offsets: Vec<usize> = kids.iter().map(|k| k.text_offset()).collect();
    assert_eq!(offsets, vec![0, 5, 6, 7, 8]);
    let m2 = kids[4].as_node().unwrap();
    let inner = RedNodeData::children(&m2);
    let offsets: Vec<usize> = inner.iter().map(|k| k.text_offset()).collect();
    assert_eq!(offsets, vec![8, 9, 10, 11, 12]);
}

#[test]
fn ancestors_climb_to_the_root() {
    let green = one_times_two_plus_one_times_two();
    let red = RedNodeData::new_root(green);
    let kids = RedNodeData::children(&red);
    let m2 = kids[4].as_node().unwrap();
    let chain = RedNodeData::ancestors(&m2);
    assert_eq!(chain.len(), 2);
    assert_eq!(chain[0].to_text(), "1 * 2");
    assert_eq!(chain[1].to_text(), "1 * 2 + 1 * 2");
    assert!(chain[1].parent().is_none());
    assert!(m2.parent().is_some());
}

#[test]
fn nth_child_matches_children() {
    let green = one_times_two_plus_one_times_two();
    let red = RedNodeData::new_root(green);
    let second = RedNodeData::nth_child(&red, 1).unwrap();
    assert_eq!(second.kind(), SyntaxKind(kinds::WHITESPACE));
    assert_eq!(second.text_offset(), 5);
    assert!(RedNodeData::nth_child(&red, 5).is_none());
}

#[test]
fn full_fidelity_keeps_malformed_input() {
    let mut b = GreenNodeBuilder::new();
    b.start_node(SyntaxKind(kinds::TYPE));
    b.token(SyntaxKind(kinds::WHITESPACE), "  \t");
    b.token(SyntaxKind(kinds::IDENT), "unfinish\u{e9}d");
    b.token(SyntaxKind(kinds::WHITESPACE), " ");
    b.token(SyntaxKind(kinds::L_CURLY), "{");
    b.finish_node().unwrap();
    let root = b.finish().unwrap();
    assert_eq!(root.to_text(), "  \tunfinish\u{e9}d {");
}

#[test]
fn empty_node_renders_empty() {
    let mut b = GreenNodeBuilder::new();
    b.start_node(SyntaxKind(kinds::TYPE));
    b.finish_node().unwrap();
    let root = b.finish().unwrap();
    assert_eq!(root.to_text(), "");
    assert_eq!(root.text_len(), 0);
    let red = RedNodeData::new_root(root);
    assert_eq!(RedNodeData::children(&red).len(), 0);
    assert!(RedNodeData::child_containing_range(&red, (0, 1)).is_none());
}

#[test]
fn token_accessors_report_kind_text_and_len() {
    let t = GreenToken::new(SyntaxKind(kinds::IDENT), "hello");
    assert_eq!(t.kind(), SyntaxKind(kinds::IDENT));
    assert_eq!(t.text(), "hello");
    assert_eq!(t.text_len(), 5);
    assert_eq!(t.data().kind(), SyntaxKind(kinds::IDENT));
    assert_eq!(t.data().text(), "hello");
}

#[test]
fn element_refs_borrow_and_reown() {
    let green = one_times_two_plus_one_times_two();
    let kids = green.data().children();
    let first = kids[0].as_deref();
    assert_eq!(first.kind(), SyntaxKind(kinds::BIN_EXPR));
    assert_eq!(first.text_len(), 5);
    let owned = first.to_owned();
    assert_eq!(owned.kind(), SyntaxKind(kinds::BIN_EXPR));
    assert_eq!(owned.text_len(), 5);
    assert_eq!(owned.to_text(), "1 * 2");
}

#[test]
fn make_name_renders_its_identifier() {
    let n = redgreen::make_name("Foo");
    assert_eq!(n.to_text(), "Foo");
    assert_eq!(n.kind(), SyntaxKind(kinds::NAME));
    assert_eq!(n.text_len(), 3);
    let f = make_field_name("foo", "String");
    assert_eq!(f.to_text(), "    foo: String,\n");
}

#[test]
fn red_tokens_know_their_place() {
    let green = one_times_two_plus_one_times_two();
    let red = RedNodeData::new_root(green);
    let kids = RedNodeData::children(&red);
    let plus = kids[2].as_token().unwrap();
    assert_eq!(plus.kind(), SyntaxKind(kinds::PLUS));
    assert_eq!(plus.text_offset(), 6);
    assert_eq!(plus.text_len(), 1);
    assert_eq!(plus.to_text(), "+");
    assert_eq!(plus.green().text(), "+");
    assert!(plus.parent().is_some());
    assert_eq!(plus.parent().unwrap().to_text(), "1 * 2 + 1 * 2");
}
