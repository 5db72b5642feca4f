use syntax::edits::{remove_use, remove_use_tree, Removable, Use, UseTree};
use syntax::editor::{EditError, Position, SyntaxEditor};
use syntax::factory::{BinaryOp, SyntaxFactory};
use syntax::mapping::{MappingEntry, SyntaxMapping, SyntaxMappingBuilder};
use syntax::tree::{kind_text, Elem, SyntaxKind, Tree};

fn chars(s: &str) -> Vec<char> {
    s.chars().collect()
}

fn render(t: &Tree, e: Elem) -> String {
    match e {
        Elem::Token(i) => t.token_texts[i].iter().collect(),
        Elem::Node(n) => t.node_children[n].iter().map(|c| render(t, *c)).collect(),
    }
}

fn tok(t: &mut Tree, k: SyntaxKind, s: &str) -> Elem {
    t.new_token(k, chars(s))
}

fn node(t: &mut Tree, k: SyntaxKind, cs: Vec<Elem>) -> usize {
    match t.new_node(k, cs) {
        Elem::Node(n) => n,
        Elem::Token(_) => unreachable!(),
    }
}

fn name_node(t: &mut Tree, s: &str) -> usize {
    let id = tok(t, SyntaxKind::IDENT, s);
    node(t, SyntaxKind::NAME, vec![id])
}

fn type_param_node(t: &mut Tree, s: &str) -> usize {
    let n = name_node(t, s);
    node(t, SyntaxKind::TYPE_PARAM, vec![Elem::Node(n)])
}

/// `function foo<list>() {}`, with the list's inner elements given as text:
/// `None` for no list, `Some(vec![])` for `<>`, and so on.
fn function(t: &mut Tree, params: Option<Vec<&str>>) -> usize {
    let kw = tok(t, SyntaxKind::FN_KW, "function");
    let ws = tok(t, SyntaxKind::WHITESPACE, " ");
    let name = name_node(t, "foo");
    let mut cs = vec![kw, ws, Elem::Node(name)];
    if let Some(ps) = params {
        let mut gl = vec![tok(t, SyntaxKind::L_ANGLE, "<")];
        for p in ps {
            match p {
                "," => gl.push(tok(t, SyntaxKind::COMMA, ",")),
                " " => gl.push(tok(t, SyntaxKind::WHITESPACE, " ")),
                _ => {
                    let tp = type_param_node(t, p);
                    gl.push(Elem::Node(tp));
                }
            }
        }
        gl.push(tok(t, SyntaxKind::R_ANGLE, ">"));
        let g = node(t, SyntaxKind::GENERIC_PARAM_LIST, gl);
        cs.push(Elem::Node(g));
    }
    let lp = tok(t, SyntaxKind::L_PAREN, "(");
    let rp = tok(t, SyntaxKind::R_PAREN, ")");
    let pl = node(t, SyntaxKind::PARAM_LIST, vec![lp, rp]);
    cs.push(Elem::Node(pl));
    cs.push(tok(t, SyntaxKind::WHITESPACE, " "));
    let lc = tok(t, SyntaxKind::L_CURLY, "{");
    let rc = tok(t, SyntaxKind::R_CURLY, "}");
    let sl = node(t, SyntaxKind::STMT_LIST, vec![lc, rc]);
    let b = node(t, SyntaxKind::BLOCK_EXPR, vec![Elem::Node(sl)]);
    cs.push(Elem::Node(b));
    node(t, SyntaxKind::FN, cs)
}

fn add_param(params: Option<Vec<&str>>, new: &str) -> String {
    let mut t = Tree::new();
    let f = function(&mut t, params);
    let make = SyntaxFactory::new();
    let n = make.name(&mut t, chars(new));
    let mut make = make;
    let p = make.type_param(&mut t, n, None);
    let mut ed = SyntaxEditor::new();
    ed.add_generic_param(&mut t, f, p);
    assert_eq!(ed.apply(&mut t), Ok(()));
    render(&t, Elem::Node(f))
}

#[test]
fn generic_param_added_where_there_is_no_list() {
    assert_eq!(add_param(None, "T"), "function foo<T>() {}");
}

#[test]
fn generic_param_appended_after_existing_one() {
    assert_eq!(add_param(Some(vec!["A"]), "B"), "function foo<A, B>() {}");
}

#[test]
fn generic_param_keeps_trailing_comma_last() {
    assert_eq!(add_param(Some(vec!["A", ","]), "B"), "function foo<A, B,>() {}");
}

#[test]
fn generic_param_into_empty_list() {
    assert_eq!(add_param(Some(vec![]), "T"), "function foo<T>() {}");
}

#[test]
fn generic_param_after_two_params() {
    assert_eq!(add_param(Some(vec!["A", ",", " ", "B"]), "C"), "function foo<A, B, C>() {}");
}

/// `import <path>;` where the path is dotted text.
fn import(t: &mut Tree, path: &str) -> usize {
    let kw = tok(t, SyntaxKind::USE_KW, "import");
    let ws = tok(t, SyntaxKind::WHITESPACE, " ");
    let mut pcs = vec![];
    for (i, seg) in path.split('.').enumerate() {
        if i > 0 {
            pcs.push(tok(t, SyntaxKind::DOT, "."));
        }
        pcs.push(tok(t, SyntaxKind::IDENT, seg));
    }
    let ut = node(t, SyntaxKind::USE_TREE, pcs);
    let semi = tok(t, SyntaxKind::SEMICOLON, ";");
    node(t, SyntaxKind::USE, vec![kw, ws, Elem::Node(ut), semi])
}

#[test]
fn remove_first_import_leaves_no_blank_line() {
    let mut t = Tree::new();
    let u1 = import(&mut t, "foo.bar");
    let nl1 = tok(&mut t, SyntaxKind::WHITESPACE, "\n");
    let u2 = import(&mut t, "baz.qux");
    let nl2 = tok(&mut t, SyntaxKind::WHITESPACE, "\n");
    let file = node(&mut t, SyntaxKind::SOURCE_FILE, vec![Elem::Node(u1), nl1, Elem::Node(u2), nl2]);
    assert_eq!(render(&t, Elem::Node(file)), "import foo.bar;\nimport baz.qux;\n");
    let mut ed = SyntaxEditor::new();
    remove_use(&mut ed, &mut t, u1);
    assert_eq!(ed.apply(&mut t), Ok(()));
    assert_eq!(render(&t, Elem::Node(file)), "import baz.qux;\n");
}

#[test]
fn remove_middle_import_trims_whitespace_on_both_sides() {
    let mut t = Tree::new();
    let u1 = import(&mut t, "a");
    let w1 = tok(&mut t, SyntaxKind::WHITESPACE, "\n\n  ");
    let u2 = import(&mut t, "b");
    let w2 = tok(&mut t, SyntaxKind::WHITESPACE, "  \n\nx");
    let u3 = import(&mut t, "c");
    let file = node(&mut t, SyntaxKind::SOURCE_FILE, vec![Elem::Node(u1), w1, Elem::Node(u2), w2, Elem::Node(u3)]);
    let mut ed = SyntaxEditor::new();
    Use { node: u2 }.remove(&mut ed, &mut t);
    assert_eq!(ed.apply(&mut t), Ok(()));
    // after: keeps what follows its first line break; before: up to its last one
    assert_eq!(render(&t, Elem::Node(file)), "import a;\n\n\nximport c;");
}

#[test]
fn remove_import_clears_single_line_spacing_before_it() {
    let mut t = Tree::new();
    let u1 = import(&mut t, "a");
    let w1 = tok(&mut t, SyntaxKind::WHITESPACE, "   ");
    let u2 = import(&mut t, "b");
    let w2 = tok(&mut t, SyntaxKind::WHITESPACE, "  ");
    let file = node(&mut t, SyntaxKind::SOURCE_FILE, vec![Elem::Node(u1), w1, Elem::Node(u2), w2]);
    let mut ed = SyntaxEditor::new();
    remove_use(&mut ed, &mut t, u2);
    assert_eq!(ed.apply(&mut t), Ok(()));
    // the whitespace after has no line break and stays as it is
    assert_eq!(render(&t, Elem::Node(file)), "import a;  ");
}

/// `import foo.{a, b, c};`, with the clause nodes of the group.
fn grouped_import(t: &mut Tree, names: &[&str]) -> (usize, Vec<usize>) {
    let kw = tok(t, SyntaxKind::USE_KW, "import");
    let ws = tok(t, SyntaxKind::WHITESPACE, " ");
    let foo = tok(t, SyntaxKind::IDENT, "foo");
    let dot = tok(t, SyntaxKind::DOT, ".");
    let mut lcs = vec![tok(t, SyntaxKind::L_CURLY, "{")];
    let mut clauses = vec![];
    for (i, n) in names.iter().enumerate() {
        if i > 0 {
            lcs.push(tok(t, SyntaxKind::COMMA, ","));
            lcs.push(tok(t, SyntaxKind::WHITESPACE, " "));
        }
        let id = tok(t, SyntaxKind::IDENT, n);
        let c = node(t, SyntaxKind::USE_TREE, vec![id]);
        clauses.push(c);
        lcs.push(Elem::Node(c));
    }
    lcs.push(tok(t, SyntaxKind::R_CURLY, "}"));
    let list = node(t, SyntaxKind::USE_TREE_LIST, lcs);
    let top = node(t, SyntaxKind::USE_TREE, vec![foo, dot, Elem::Node(list)]);
    let semi = tok(t, SyntaxKind::SEMICOLON, ";");
    let u = node(t, SyntaxKind::USE, vec![kw, ws, Elem::Node(top), semi]);
    (u, clauses)
}

fn remove_clause(names: &[&str], which: usize) -> String {
    let mut t = Tree::new();
    let (u, clauses) = grouped_import(&mut t, names);
    let mut ed = SyntaxEditor::new();
    UseTree { node: clauses[which] }.remove(&mut ed, &mut t);
    assert_eq!(ed.apply(&mut t), Ok(()));
    render(&t, Elem::Node(u))
}

#[test]
fn remove_middle_clause_keeps_one_separator() {
    assert_eq!(remove_clause(&["a", "b", "c"], 1), "import foo.{a, c};");
}

#[test]
fn remove_last_clause_drops_separator_before_it() {
    assert_eq!(remove_clause(&["a", "b", "c"], 2), "import foo.{a, b};");
}

#[test]
fn remove_first_clause_drops_separator_after_it() {
    assert_eq!(remove_clause(&["a", "b", "c"], 0), "import foo.{b, c};");
}

#[test]
fn remove_only_clause_touches_no_separator() {
    assert_eq!(remove_clause(&["a"], 0), "import foo.{};");
}

#[test]
fn remove_use_tree_stages_separators_then_clause() {
    let mut t = Tree::new();
    let (_, clauses) = grouped_import(&mut t, &["a", "b", "c"]);
    let mut ed = SyntaxEditor::new();
    remove_use_tree(&mut ed, &t, clauses[1]);
    assert_eq!(ed.changes.len(), 3);
}

#[test]
fn empty_batch_leaves_tree_unchanged() {
    let mut t = Tree::new();
    let f = function(&mut t, Some(vec!["A"]));
    let before = render(&t, Elem::Node(f));
    let children_before = t.node_children.clone();
    let ed = SyntaxEditor::new();
    assert_eq!(ed.apply(&mut t), Ok(()));
    assert_eq!(render(&t, Elem::Node(f)), before);
    assert_eq!(t.node_children, children_before);
}

#[test]
fn insert_all_keeps_order_and_contiguity() {
    let mut t = Tree::new();
    let x = tok(&mut t, SyntaxKind::IDENT, "x");
    let y = tok(&mut t, SyntaxKind::IDENT, "y");
    let root = node(&mut t, SyntaxKind::SOURCE_FILE, vec![x, y]);
    let a = tok(&mut t, SyntaxKind::IDENT, "A");
    let b = tok(&mut t, SyntaxKind::IDENT, "B");
    let c = tok(&mut t, SyntaxKind::IDENT, "C");
    let mut ed = SyntaxEditor::new();
    ed.insert_all(Position::before(y), vec![a, b, c]);
    assert_eq!(ed.apply(&mut t), Ok(()));
    assert_eq!(t.node_children[root], vec![x, a, b, c, y]);
    assert_eq!(render(&t, Elem::Node(root)), "xABCy");
}

#[test]
fn insert_after_and_last_child_of() {
    let mut t = Tree::new();
    let x = tok(&mut t, SyntaxKind::IDENT, "x");
    let root = node(&mut t, SyntaxKind::SOURCE_FILE, vec![x]);
    let a = tok(&mut t, SyntaxKind::IDENT, "a");
    let b = tok(&mut t, SyntaxKind::IDENT, "b");
    let c = tok(&mut t, SyntaxKind::IDENT, "c");
    let mut ed = SyntaxEditor::new();
    ed.insert(Position::last_child_of(root), c);
    ed.insert(Position::after(x), b);
    ed.insert(Position::after(x), a);
    assert_eq!(ed.apply(&mut t), Ok(()));
    assert_eq!(render(&t, Elem::Node(root)), "xabc");
}

#[test]
fn replace_is_delete_then_insert_at_same_slot() {
    let mut t = Tree::new();
    let x = tok(&mut t, SyntaxKind::IDENT, "x");
    let y = tok(&mut t, SyntaxKind::IDENT, "y");
    let z = tok(&mut t, SyntaxKind::IDENT, "z");
    let root = node(&mut t, SyntaxKind::SOURCE_FILE, vec![x, y, z]);
    let p = tok(&mut t, SyntaxKind::IDENT, "P");
    let q = tok(&mut t, SyntaxKind::IDENT, "Q");
    let mut ed = SyntaxEditor::new();
    ed.replace_all(y, vec![p, q]);
    assert_eq!(ed.apply(&mut t), Ok(()));
    assert_eq!(render(&t, Elem::Node(root)), "xPQz");
    let mut ed = SyntaxEditor::new();
    ed.replace(p, y);
    ed.delete(q);
    assert_eq!(ed.apply(&mut t), Ok(()));
    assert_eq!(render(&t, Elem::Node(root)), "xyz");
}

#[test]
fn dangling_target_fails_without_partial_change() {
    let mut t = Tree::new();
    let x = tok(&mut t, SyntaxKind::IDENT, "x");
    let root = node(&mut t, SyntaxKind::SOURCE_FILE, vec![x]);
    let loose = tok(&mut t, SyntaxKind::IDENT, "loose");
    let a = tok(&mut t, SyntaxKind::IDENT, "a");
    let mut ed = SyntaxEditor::new();
    ed.insert(Position::after(x), a);
    ed.delete(loose);
    assert_eq!(ed.apply(&mut t), Err(EditError::DanglingTarget));
    assert_eq!(render(&t, Elem::Node(root)), "x");
    // a target removed earlier in the same batch is dangling too
    let mut ed = SyntaxEditor::new();
    ed.delete(x);
    ed.insert(Position::before(x), a);
    assert_eq!(ed.apply(&mut t), Err(EditError::DanglingTarget));
    assert_eq!(t.node_children[root], vec![x]);
    // an element that is not in the arena cannot be inserted
    let mut ed = SyntaxEditor::new();
    ed.insert(Position::after(x), Elem::Token(999));
    assert_eq!(ed.apply(&mut t), Err(EditError::DanglingTarget));
    let mut ed = SyntaxEditor::new();
    ed.insert(Position::last_child_of(999), a);
    assert_eq!(ed.apply(&mut t), Err(EditError::DanglingTarget));
}

#[test]
fn constructors_build_expected_text() {
    let mut t = Tree::new();
    let mut make = SyntaxFactory::new();
    let x = make.name(&mut t, chars("x"));
    let pat = make.ident_pat(&mut t, false, true, x);
    assert_eq!(render(&t, Elem::Node(pat)), "mut x");
    let pat2 = make.ident_pat(&mut t, true, false, x);
    assert_eq!(render(&t, Elem::Node(pat2)), "ref x");
    let ty = make.ty(&mut t, chars("i32"));
    assert_eq!(t.node_kinds[ty], SyntaxKind::PATH_TYPE);
    let y = make.name(&mut t, chars("y"));
    let path = node(&mut t, SyntaxKind::PATH, vec![Elem::Node(y)]);
    let e = make.expr_path(&mut t, path);
    assert_eq!(t.node_kinds[e], SyntaxKind::PATH_EXPR);
    let one = make.name(&mut t, chars("1"));
    let sum = make.expr_bin(&mut t, e, BinaryOp::Add, one);
    assert_eq!(render(&t, Elem::Node(sum)), "y + 1");
    let ne = make.expr_bin(&mut t, e, BinaryOp::Ne, one);
    assert_eq!(render(&t, Elem::Node(ne)), "y != 1");
    let r = make.expr_ref(&mut t, sum, true);
    assert_eq!(render(&t, Elem::Node(r)), "&mut y + 1");
    let r2 = make.expr_ref(&mut t, e, false);
    assert_eq!(render(&t, Elem::Node(r2)), "&y");
    let full = make.let_stmt(&mut t, pat, Some(ty), Some(sum));
    assert_eq!(render(&t, Elem::Node(full)), "let mut x: i32 = y + 1;");
    let bare = make.let_stmt(&mut t, pat, None, None);
    assert_eq!(render(&t, Elem::Node(bare)), "let mut x;");
    let init_only = make.let_stmt(&mut t, pat, None, Some(e));
    assert_eq!(render(&t, Elem::Node(init_only)), "let mut x = y;");
    let block = make.block_expr(&mut t, vec![full, bare], Some(e));
    assert_eq!(render(&t, Elem::Node(block)), "{\n    let mut x: i32 = y + 1;\n    let mut x;\n    y\n}");
    let empty = make.block_expr(&mut t, vec![], None);
    assert_eq!(render(&t, Elem::Node(empty)), "{\n}");
    let a = make.ty(&mut t, chars("A"));
    let b = make.ty(&mut t, chars("B"));
    let tf = make.turbofish_generic_arg_list(&mut t, vec![a, b]);
    assert_eq!(render(&t, Elem::Node(tf)), "::<A, B>");
    let tf0 = make.turbofish_generic_arg_list(&mut t, vec![]);
    assert_eq!(render(&t, Elem::Node(tf0)), "::<>");
    let comma = make.token(&mut t, SyntaxKind::COMMA);
    let sp = make.whitespace(&mut t, chars("  "));
    let tt = make.token_tree(&mut t, SyntaxKind::L_PAREN, vec![Elem::Node(x), comma, sp, Elem::Node(y)]);
    assert_eq!(render(&t, Elem::Node(tt)), "(x,  y)");
    let tb = make.token_tree(&mut t, SyntaxKind::L_BRACK, vec![]);
    assert_eq!(render(&t, Elem::Node(tb)), "[]");
    let bound_name = make.name(&mut t, chars("Copy"));
    let bounds = node(&mut t, SyntaxKind::TYPE_BOUND_LIST, vec![Elem::Node(bound_name)]);
    let tn = make.name(&mut t, chars("T"));
    let tp = make.type_param(&mut t, tn, Some(bounds));
    assert_eq!(render(&t, Elem::Node(tp)), "T: Copy");
    assert!(!make.is_recording());
    assert!(make.mappings.is_none());
}

#[test]
fn constructors_make_fresh_copies() {
    let mut t = Tree::new();
    let mut make = SyntaxFactory::new();
    let x = make.name(&mut t, chars("x"));
    let pat = make.ident_pat(&mut t, false, false, x);
    let copy = match t.node_children[pat][0] {
        Elem::Node(c) => c,
        Elem::Token(_) => panic!("expected a node"),
    };
    assert_ne!(copy, x);
    assert_eq!(t.node_kinds[copy], SyntaxKind::NAME);
    assert_eq!(t.node_children[copy], t.node_children[x]);
}

#[test]
fn token_texts_are_fixed() {
    assert_eq!(kind_text(SyntaxKind::FN_KW), Some(chars("function")));
    assert_eq!(kind_text(SyntaxKind::USE_KW), Some(chars("import")));
    assert_eq!(kind_text(SyntaxKind::WHITESPACE), Some(chars(" ")));
    assert_eq!(kind_text(SyntaxKind::IDENT), None);
    let mut t = Tree::new();
    let make = SyntaxFactory::new();
    let c = make.token(&mut t, SyntaxKind::COLON2);
    assert_eq!(render(&t, c), "::");
}

fn entry(parent: usize, output: usize, input: usize) -> MappingEntry {
    MappingEntry { parent, output, input }
}

fn child(t: &Tree, n: usize, j: usize) -> usize {
    match t.node_children[n][j] {
        Elem::Node(c) => c,
        Elem::Token(_) => panic!("expected a node"),
    }
}

#[test]
fn recording_maps_each_input_once() {
    let mut t = Tree::new();
    let mut make = SyntaxFactory::with_mappings();
    assert!(make.is_recording());
    let x = make.name(&mut t, chars("x"));
    let pat = make.ident_pat(&mut t, true, true, x);
    assert_eq!(make.mappings.as_ref().unwrap().entries, vec![entry(pat, child(&t, pat, 4), x)]);
    let ty = make.ty(&mut t, chars("u8"));
    let init = make.name(&mut t, chars("z"));
    let before = make.mappings.as_ref().unwrap().entries.len();
    let st = make.let_stmt(&mut t, pat, Some(ty), Some(init));
    let es = &make.mappings.as_ref().unwrap().entries[before..];
    assert_eq!(es, &[entry(st, child(&t, st, 2), pat), entry(st, child(&t, st, 5), ty), entry(st, child(&t, st, 9), init)]);
    let before = make.mappings.as_ref().unwrap().entries.len();
    let st2 = make.let_stmt(&mut t, pat, None, Some(init));
    let es = &make.mappings.as_ref().unwrap().entries[before..];
    assert_eq!(es, &[entry(st2, child(&t, st2, 2), pat), entry(st2, child(&t, st2, 6), init)]);
}

#[test]
fn recording_block_maps_statements_then_tail() {
    let mut t = Tree::new();
    let mut make = SyntaxFactory::with_mappings();
    let s1 = make.name(&mut t, chars("a"));
    let s2 = make.name(&mut t, chars("b"));
    let tail = make.name(&mut t, chars("c"));
    let b = make.block_expr(&mut t, vec![s1, s2], Some(tail));
    let sl = child(&t, b, 0);
    assert_eq!(
        make.mappings.as_ref().unwrap().entries,
        vec![entry(sl, child(&t, sl, 2), s1), entry(sl, child(&t, sl, 4), s2), entry(sl, child(&t, sl, 6), tail)]
    );
    let m = make.mappings.as_ref().unwrap();
    assert_eq!(m.input_of(child(&t, sl, 4)), Some(s2));
    assert_eq!(m.input_of(12345), None);
}

#[test]
fn recording_token_tree_maps_only_nodes() {
    let mut t = Tree::new();
    let mut make = SyntaxFactory::with_mappings();
    let a = make.name(&mut t, chars("a"));
    let comma = make.token(&mut t, SyntaxKind::COMMA);
    let b = make.name(&mut t, chars("b"));
    let tt = make.token_tree(&mut t, SyntaxKind::L_CURLY, vec![Elem::Node(a), comma, Elem::Node(b)]);
    assert_eq!(render(&t, Elem::Node(tt)), "{a,b}");
    assert_eq!(
        make.mappings.as_ref().unwrap().entries,
        vec![entry(tt, child(&t, tt, 1), a), entry(tt, child(&t, tt, 3), b)]
    );
}

#[test]
fn recording_other_constructors() {
    let mut t = Tree::new();
    let mut make = SyntaxFactory::with_mappings();
    let a = make.ty(&mut t, chars("A"));
    let b = make.ty(&mut t, chars("B"));
    let tf = make.turbofish_generic_arg_list(&mut t, vec![a, b]);
    let l = make.name(&mut t, chars("l"));
    let r = make.name(&mut t, chars("r"));
    let bin = make.expr_bin(&mut t, l, BinaryOp::Mul, r);
    let p = make.expr_path(&mut t, l);
    let rf = make.expr_ref(&mut t, r, false);
    let n = make.name(&mut t, chars("T"));
    let tp = make.type_param(&mut t, n, None);
    assert_eq!(
        make.mappings.as_ref().unwrap().entries,
        vec![
            entry(tf, child(&t, tf, 2), a),
            entry(tf, child(&t, tf, 5), b),
            entry(bin, child(&t, bin, 0), l),
            entry(bin, child(&t, bin, 4), r),
            entry(p, child(&t, p, 0), l),
            entry(rf, child(&t, rf, 1), r),
            entry(tp, child(&t, tp, 0), n),
        ]
    );
}

#[test]
fn no_recording_records_nothing() {
    let mut t = Tree::new();
    let mut make = SyntaxFactory::new();
    let x = make.name(&mut t, chars("x"));
    let pat = make.ident_pat(&mut t, false, false, x);
    make.let_stmt(&mut t, pat, None, Some(x));
    make.block_expr(&mut t, vec![pat], Some(x));
    make.token_tree(&mut t, SyntaxKind::L_PAREN, vec![Elem::Node(x)]);
    assert!(make.mappings.is_none());
}

#[test]
fn mapping_builder_pairs_up_to_shorter_sequence() {
    let mut b = SyntaxMappingBuilder::new(7);
    b.map_children(&vec![1, 2, 3], &vec![10, 20]);
    b.map_node(4, 40);
    let mut m = SyntaxMapping::new();
    b.finish(&mut m);
    assert_eq!(m.entries, vec![entry(7, 10, 1), entry(7, 20, 2), entry(7, 40, 4)]);
    assert_eq!(m.input_of(20), Some(2));
}

#[test]
fn generic_param_goes_right_after_last_param() {
    assert_eq!(add_param(Some(vec!["A", " "]), "B"), "function foo<A, B >() {}");
}

#[test]
fn generic_param_stays_inside_list_without_closing_bracket() {
    let mut t = Tree::new();
    let f = function(&mut t, None);
    let a = type_param_node(&mut t, "A");
    let l = tok(&mut t, SyntaxKind::L_ANGLE, "<");
    let g = node(&mut t, SyntaxKind::GENERIC_PARAM_LIST, vec![l, Elem::Node(a)]);
    t.node_children[f].insert(3, Elem::Node(g));
    let b = type_param_node(&mut t, "B");
    let mut ed = SyntaxEditor::new();
    ed.add_generic_param(&mut t, f, b);
    assert_eq!(ed.apply(&mut t), Ok(()));
    assert_eq!(render(&t, Elem::Node(g)), "<A, B");
    assert_eq!(t.node_children[g].last(), Some(&Elem::Node(b)));
}

fn imports(t: &mut Tree, parts: &[(&str, &str)]) -> (usize, Vec<usize>) {
    let mut cs = vec![];
    let mut us = vec![];
    for (path, ws) in parts {
        let u = import(t, path);
        us.push(u);
        cs.push(Elem::Node(u));
        if !ws.is_empty() {
            cs.push(tok(t, SyntaxKind::WHITESPACE, ws));
        }
    }
    (node(t, SyntaxKind::SOURCE_FILE, cs), us)
}

#[test]
fn remove_indented_import_between_two() {
    let mut t = Tree::new();
    let (file, us) = imports(&mut t, &[("a", "\n    "), ("b", "\n"), ("c", "\n")]);
    assert_eq!(render(&t, Elem::Node(file)), "import a;\n    import b;\nimport c;\n");
    let mut ed = SyntaxEditor::new();
    Use { node: us[1] }.remove(&mut ed, &mut t);
    assert_eq!(ed.apply(&mut t), Ok(()));
    assert_eq!(render(&t, Elem::Node(file)), "import a;\nimport c;\n");
}

#[test]
fn remove_import_after_single_space() {
    let mut t = Tree::new();
    let (file, us) = imports(&mut t, &[("a", " "), ("b", "")]);
    let mut ed = SyntaxEditor::new();
    Use { node: us[1] }.remove(&mut ed, &mut t);
    assert_eq!(ed.apply(&mut t), Ok(()));
    assert_eq!(render(&t, Elem::Node(file)), "import a;");
}

#[test]
fn edit_of_element_shared_by_a_copy_fails() {
    let mut t = Tree::new();
    let mut make = SyntaxFactory::new();
    let x = make.name(&mut t, chars("x"));
    let pat = make.ident_pat(&mut t, false, false, x);
    let xc = child(&t, pat, 0);
    let ident = t.node_children[x][0];
    assert_eq!(t.node_children[xc][0], ident);
    let y = tok(&mut t, SyntaxKind::IDENT, "y");
    let mut ed = SyntaxEditor::new();
    ed.replace(ident, y);
    assert_eq!(ed.apply(&mut t), Err(EditError::DanglingTarget));
    assert_eq!(render(&t, Elem::Node(x)), "x");
    // the copy itself has one parent and can be edited
    let z = make.name(&mut t, chars("z"));
    let mut ed = SyntaxEditor::new();
    ed.replace(Elem::Node(xc), Elem::Node(z));
    assert_eq!(ed.apply(&mut t), Ok(()));
    assert_eq!(render(&t, Elem::Node(pat)), "z");
    assert_eq!(render(&t, Elem::Node(x)), "x");
}

#[test]
fn removing_an_anchor_after_inserting_at_it_conflicts() {
    let mut t = Tree::new();
    let x = tok(&mut t, SyntaxKind::IDENT, "x");
    let root = node(&mut t, SyntaxKind::SOURCE_FILE, vec![x]);
    let a = tok(&mut t, SyntaxKind::IDENT, "a");
    let mut ed = SyntaxEditor::new();
    ed.insert(Position::after(x), a);
    ed.delete(x);
    assert!(ed.has_conflict());
    assert_eq!(ed.apply(&mut t), Err(EditError::Conflict));
    assert_eq!(render(&t, Elem::Node(root)), "x");
    let b = tok(&mut t, SyntaxKind::IDENT, "b");
    let mut ed = SyntaxEditor::new();
    ed.insert(Position::before(x), a);
    ed.replace(x, b);
    assert_eq!(ed.apply(&mut t), Err(EditError::Conflict));
    let mut ed = SyntaxEditor::new();
    ed.replace(x, b);
    ed.insert(Position::after(b), a);
    assert!(!ed.has_conflict());
    assert_eq!(ed.apply(&mut t), Ok(()));
    assert_eq!(render(&t, Elem::Node(root)), "ba");
}
