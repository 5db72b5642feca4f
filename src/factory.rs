//! Constructors of new fragments. Each one builds a fresh node from the
//! nodes a caller hands in and, where a mapping store is active, records
//! which child of the new node was built from which input.
use vstd::prelude::*;
use crate::mapping::{entries_of, MappingEntry, SyntaxMapping, SyntaxMappingBuilder};
use crate::tree::{fixed_text, kind_text, Elem, SyntaxKind, Tree};

verus! {

/// One child of a node being built.
pub enum Part {
    /// A fresh token with the fixed text of its kind.
    Tok(SyntaxKind),
    /// A fresh token with the given text.
    Text(SyntaxKind, Vec<char>),
    /// A fresh copy of a node: same kind, same children.
    CopyNode(usize),
    /// A fresh copy of a token: same kind, same text.
    CopyToken(usize),
}

pub enum PartView {
    Tok(SyntaxKind),
    Text(SyntaxKind, Seq<char>),
    CopyNode(usize),
    CopyToken(usize),
}

impl View for Part {
    type V = PartView;

    open spec fn view(&self) -> PartView {
        match self {
            Part::Tok(k) => PartView::Tok(*k),
            Part::Text(k, s) => PartView::Text(*k, s@),
            Part::CopyNode(n) => PartView::CopyNode(*n),
            Part::CopyToken(i) => PartView::CopyToken(*i),
        }
    }
}

pub open spec fn parts_view(ps: Seq<Part>) -> Seq<PartView> {
    Seq::new(ps.len(), |i: int| ps[i]@)
}

/// The part can be built in `old`.
pub open spec fn part_ok(old: &Tree, p: PartView) -> bool {
    match p {
        PartView::Tok(k) => fixed_text(k) is Some,
        PartView::Text(_, _) => true,
        PartView::CopyNode(n) => n < old.nn(),
        PartView::CopyToken(i) => i < old.nt(),
    }
}

/// `e`, in `t`, is a fresh element (not in `old`) made as `p` says.
pub open spec fn realizes(t: &Tree, old: &Tree, e: Elem, p: PartView) -> bool {
    match p {
        PartView::Tok(k) => e matches Elem::Token(i) && old.nt() <= i < t.nt()
            && t.token_kinds@[i as int] == k && t.token_texts@[i as int]@ == fixed_text(k)->0,
        PartView::Text(k, s) => e matches Elem::Token(i) && old.nt() <= i < t.nt()
            && t.token_kinds@[i as int] == k && t.token_texts@[i as int]@ == s,
        PartView::CopyNode(n) => e matches Elem::Node(c) && old.nn() <= c < t.nn()
            && t.node_kinds@[c as int] == old.node_kinds@[n as int] && t.children()[c as int]
            == old.children()[n as int],
        PartView::CopyToken(j) => e matches Elem::Token(i) && old.nt() <= i < t.nt()
            && t.token_kinds@[i as int] == old.token_kinds@[j as int] && t.token_texts@[i as int]@
            == old.token_texts@[j as int]@,
    }
}

/// Node `r` of `t` is fresh, of kind `k`, and its children are made, one
/// for one, as `ps` says.
pub open spec fn built(t: &Tree, old: &Tree, r: usize, k: SyntaxKind, ps: Seq<PartView>) -> bool {
    &&& old.nn() <= r < t.nn()
    &&& t.node_kinds@[r as int] == k
    &&& t.children()[r as int].len() == ps.len()
    &&& forall|j: int| 0 <= j < ps.len() ==> realizes(t, old, #[trigger] t.children()[r as int][j], ps[j])
}

/// The node that child `j` of node `r` is (0 for a token).
pub open spec fn child_node(t: &Tree, r: usize, j: int) -> usize {
    match t.children()[r as int][j] {
        Elem::Node(c) => c,
        Elem::Token(_) => 0,
    }
}

/// What a mapping store holds after a call that records `es`: with recording
/// active, the entries `es` are added in order; without it nothing is.
pub open spec fn records(
    before: Option<Seq<MappingEntry>>,
    after: Option<Seq<MappingEntry>>,
    es: Seq<MappingEntry>,
) -> bool {
    match before {
        Some(m) => after == Some(m + es),
        None => after is None,
    }
}

proof fn lemma_realizes_stable(t2: &Tree, t1: &Tree, old: &Tree, e: Elem, p: PartView)
    requires
        t2.wf(),
        t1.wf(),
        t2.extends(t1),
        t1.has(e),
        realizes(t1, old, e, p),
    ensures
        realizes(t2, old, e, p),
{
    t2.lemma_extends_keeps(t1, e);
}

/// Builds a fresh node of kind `kind` whose children are made from `parts`,
/// in order.
fn build(tree: &mut Tree, kind: SyntaxKind, parts: &Vec<Part>) -> (r: (usize, Vec<Elem>))
    requires
        old(tree).wf(),
        forall|j: int| 0 <= j < parts@.len() ==> part_ok(old(tree), #[trigger] parts@[j]@),
        old(tree).nn() + parts@.len() + 1 < usize::MAX,
        old(tree).nt() + parts@.len() < usize::MAX,
    ensures
        final(tree).wf(),
        final(tree).extends(old(tree)),
        built(final(tree), old(tree), r.0, kind, parts_view(parts@)),
        r.1@ == final(tree).children()[r.0 as int],
        final(tree).nn() <= old(tree).nn() + parts@.len() + 1,
        final(tree).nt() <= old(tree).nt() + parts@.len(),
{
    let ghost t0 = *tree;
    proof {
        tree.lemma_extends_refl();
    }
    let mut cs: Vec<Elem> = Vec::new();
    let mut j: usize = 0;
    while j < parts.len()
        invariant
            j <= parts@.len(),
            t0 == *old(tree),
            t0.wf(),
            tree.wf(),
            tree.extends(&t0),
            tree.nn() <= t0.nn() + j,
            tree.nt() <= t0.nt() + j,
            forall|i: int| 0 <= i < parts@.len() ==> part_ok(&t0, #[trigger] parts@[i]@),
            t0.nn() + parts@.len() + 1 < usize::MAX,
            t0.nt() + parts@.len() < usize::MAX,
            cs@.len() == j,
            forall|i: int| 0 <= i < j ==> tree.has(#[trigger] cs@[i]) && realizes(tree, &t0, cs@[i], parts@[i]@),
        decreases parts@.len() - j,
    {
        let ghost t1 = *tree;
        assert(part_ok(&t0, parts@[j as int]@));
        let e = match &parts[j] {
            Part::Tok(k) => {
                let text = kind_text(*k);
                let text = match text {
                    Some(t) => t,
                    None => Vec::new(),
                };
                tree.new_token(*k, text)
            },
            Part::Text(k, s) => {
                let text = copy_chars(s);
                tree.new_token(*k, text)
            },
            Part::CopyNode(n) => {
                proof {
                    tree.lemma_extends_keeps(&t0, Elem::Node(*n));
                }
                let k = tree.node_kinds[*n];
                let row = tree.children_of(*n);
                tree.new_node(k, row)
            },
            Part::CopyToken(i) => {
                proof {
                    tree.lemma_extends_keeps(&t0, Elem::Token(*i));
                }
                let k = tree.token_kinds[*i];
                let text = tree.text_of(*i);
                tree.new_token(k, text)
            },
        };
        proof {
            tree.lemma_adds_extends(&t1);
            tree.lemma_extends_trans(&t1, &t0);
            assert forall|i: int| 0 <= i < j implies tree.has(#[trigger] cs@[i]) && realizes(
                tree,
                &t0,
                cs@[i],
                parts@[i]@,
            ) by {
                lemma_realizes_stable(tree, &t1, &t0, cs@[i], parts@[i]@);
            }
        }
        cs.push(e);
        j = j + 1;
    }
    let ghost t1 = *tree;
    let ghost cv = cs@;
    let row = copy_elems(&cs);
    let rn = tree.node_kinds.len();
    tree.new_node(kind, row);
    proof {
        tree.lemma_adds_extends(&t1);
        tree.lemma_extends_trans(&t1, &t0);
        assert forall|i: int| 0 <= i < parts@.len() implies realizes(
            tree,
            &t0,
            #[trigger] tree.children()[rn as int][i],
            parts_view(parts@)[i],
        ) by {
            assert(tree.children()[rn as int] == cv);
            lemma_realizes_stable(tree, &t1, &t0, cv[i], parts@[i]@);
        }
    }
    (rn, cs)
}

fn copy_chars(s: &Vec<char>) -> (r: Vec<char>)
    ensures
        r@ == s@,
{
    let mut r: Vec<char> = Vec::new();
    let mut k: usize = 0;
    while k < s.len()
        invariant
            k <= s@.len(),
            r@ == s@.take(k as int),
        decreases s@.len() - k,
    {
        r.push(s[k]);
        k = k + 1;
        assert(r@ =~= s@.take(k as int));
    }
    assert(s@.take(k as int) =~= s@);
    r
}

fn copy_elems(s: &Vec<Elem>) -> (r: Vec<Elem>)
    ensures
        r@ == s@,
{
    let mut r: Vec<Elem> = Vec::new();
    let mut k: usize = 0;
    while k < s.len()
        invariant
            k <= s@.len(),
            r@ == s@.take(k as int),
        decreases s@.len() - k,
    {
        r.push(s[k]);
        k = k + 1;
        assert(r@ =~= s@.take(k as int));
    }
    assert(s@.take(k as int) =~= s@);
    r
}

/// Binary operators, each written as one token.
#[derive(Clone, Copy, PartialEq, Eq, Structural, Debug)]
pub enum BinaryOp {
    Add,
    Sub,
    Mul,
    Div,
    Eq,
    Ne,
    And,
    Or,
}

pub open spec fn op_kind(op: BinaryOp) -> SyntaxKind {
    match op {
        BinaryOp::Add => SyntaxKind::PLUS,
        BinaryOp::Sub => SyntaxKind::MINUS,
        BinaryOp::Mul => SyntaxKind::STAR,
        BinaryOp::Div => SyntaxKind::SLASH,
        BinaryOp::Eq => SyntaxKind::EQ2,
        BinaryOp::Ne => SyntaxKind::NEQ,
        BinaryOp::And => SyntaxKind::AMP2,
        BinaryOp::Or => SyntaxKind::PIPE2,
    }
}

fn op_token_kind(op: BinaryOp) -> (k: SyntaxKind)
    ensures
        k == op_kind(op),
        fixed_text(k) is Some,
{
    match op {
        BinaryOp::Add => SyntaxKind::PLUS,
        BinaryOp::Sub => SyntaxKind::MINUS,
        BinaryOp::Mul => SyntaxKind::STAR,
        BinaryOp::Div => SyntaxKind::SLASH,
        BinaryOp::Eq => SyntaxKind::EQ2,
        BinaryOp::Ne => SyntaxKind::NEQ,
        BinaryOp::And => SyntaxKind::AMP2,
        BinaryOp::Or => SyntaxKind::PIPE2,
    }
}

/// The closing delimiter of a token group opened by `k`.
pub open spec fn closing(k: SyntaxKind) -> SyntaxKind {
    match k {
        SyntaxKind::L_PAREN => SyntaxKind::R_PAREN,
        SyntaxKind::L_CURLY => SyntaxKind::R_CURLY,
        _ => SyntaxKind::R_BRACK,
    }
}

pub open spec fn is_open_delimiter(k: SyntaxKind) -> bool {
    k == SyntaxKind::L_PAREN || k == SyntaxKind::L_CURLY || k == SyntaxKind::L_BRACK
}

/// Room in the arena for `n` more nodes and `n` more tokens.
pub open spec fn room(t: &Tree, n: int) -> bool {
    t.nn() + n < usize::MAX && t.nt() + n < usize::MAX
}

pub open spec fn entry(parent: usize, output: usize, input: usize) -> MappingEntry {
    MappingEntry { parent, output, input }
}

/// Builds fragments; records mappings when it holds a mapping store.
pub struct SyntaxFactory {
    pub mappings: Option<SyntaxMapping>,
}

impl SyntaxFactory {
    /// What the mapping store holds, if recording is active.
    pub open spec fn recorded(&self) -> Option<Seq<MappingEntry>> {
        match self.mappings {
            Some(m) => Some(m@),
            None => None,
        }
    }

    /// A factory that records nothing.
    pub fn new() -> (r: SyntaxFactory)
        ensures
            r.recorded() is None,
    {
        SyntaxFactory { mappings: None }
    }

    /// A factory that records into an empty mapping store.
    pub fn with_mappings() -> (r: SyntaxFactory)
        ensures
            r.recorded() == Some(Seq::<MappingEntry>::empty()),
    {
        SyntaxFactory { mappings: Some(SyntaxMapping::new()) }
    }

    pub fn is_recording(&self) -> (r: bool)
        ensures
            r == self.recorded() is Some,
    {
        self.mappings.is_some()
    }

    fn record(&mut self, b: SyntaxMappingBuilder)
        ensures
            records(old(self).recorded(), final(self).recorded(), entries_of(b.parent, b.node_map@)),
    {
        match self.mappings.take() {
            Some(mut m) => {
                b.finish(&mut m);
                self.mappings = Some(m);
            },
            None => {},
        }
    }

    /// A name node holding one identifier token with text `text`.
    pub fn name(&self, tree: &mut Tree, text: Vec<char>) -> (r: usize)
        requires
            old(tree).wf(),
            room(old(tree), 2),
        ensures
            final(tree).wf(),
            final(tree).extends(old(tree)),
            built(final(tree), old(tree), r, SyntaxKind::NAME, seq![PartView::Text(SyntaxKind::IDENT, text@)]),
    {
        let ghost tv = text@;
        let parts = vec![Part::Text(SyntaxKind::IDENT, text)];
        assert(parts_view(parts@) =~= seq![PartView::Text(SyntaxKind::IDENT, tv)]);
        build(tree, SyntaxKind::NAME, &parts).0
    }

    /// A type reference written as one identifier token with text `text`.
    pub fn ty(&self, tree: &mut Tree, text: Vec<char>) -> (r: usize)
        requires
            old(tree).wf(),
            room(old(tree), 2),
        ensures
            final(tree).wf(),
            final(tree).extends(old(tree)),
            built(final(tree), old(tree), r, SyntaxKind::PATH_TYPE, seq![PartView::Text(SyntaxKind::IDENT, text@)]),
    {
        let ghost tv = text@;
        let parts = vec![Part::Text(SyntaxKind::IDENT, text)];
        assert(parts_view(parts@) =~= seq![PartView::Text(SyntaxKind::IDENT, tv)]);
        build(tree, SyntaxKind::PATH_TYPE, &parts).0
    }

    /// A whitespace token with text `text`.
    pub fn whitespace(&self, tree: &mut Tree, text: Vec<char>) -> (e: Elem)
        requires
            old(tree).wf(),
            room(old(tree), 1),
        ensures
            final(tree).wf(),
            final(tree).adds_token(old(tree), SyntaxKind::WHITESPACE, text@),
            e == Elem::Token(old(tree).nt() as usize),
    {
        tree.new_token(SyntaxKind::WHITESPACE, text)
    }

    /// A token of kind `kind` with the fixed text of that kind.
    pub fn token(&self, tree: &mut Tree, kind: SyntaxKind) -> (e: Elem)
        requires
            old(tree).wf(),
            room(old(tree), 1),
            fixed_text(kind) is Some,
        ensures
            final(tree).wf(),
            final(tree).adds_token(old(tree), kind, fixed_text(kind)->0),
            e == Elem::Token(old(tree).nt() as usize),
    {
        let text = match kind_text(kind) {
            Some(t) => t,
            None => Vec::new(),
        };
        tree.new_token(kind, text)
    }

    /// A generic type parameter: a copy of `name`, then, where `bounds` is
    /// given, a colon, a space and a copy of the bounds.
    pub fn type_param(&mut self, tree: &mut Tree, name: usize, bounds: Option<usize>) -> (r: usize)
        requires
            old(tree).wf(),
            old(tree).is_node(name),
            bounds matches Some(b) ==> old(tree).is_node(b),
            room(old(tree), 6),
        ensures
            final(tree).wf(),
            final(tree).extends(old(tree)),
            built(
                final(tree),
                old(tree),
                r,
                SyntaxKind::TYPE_PARAM,
                match bounds {
                    Some(b) => seq![
                        PartView::CopyNode(name),
                        PartView::Tok(SyntaxKind::COLON),
                        PartView::Tok(SyntaxKind::WHITESPACE),
                        PartView::CopyNode(b),
                    ],
                    None => seq![PartView::CopyNode(name)],
                },
            ),
            records(
                old(self).recorded(),
                final(self).recorded(),
                match bounds {
                    Some(b) => seq![
                        entry(r, child_node(final(tree), r, 0), name),
                        entry(r, child_node(final(tree), r, 3), b),
                    ],
                    None => seq![entry(r, child_node(final(tree), r, 0), name)],
                },
            ),
    {
        let mut parts = vec![Part::CopyNode(name)];
        if let Some(b) = bounds {
            parts.push(Part::Tok(SyntaxKind::COLON));
            parts.push(Part::Tok(SyntaxKind::WHITESPACE));
            parts.push(Part::CopyNode(b));
        }
        proof {
            match bounds {
                Some(b) => assert(parts_view(parts@) =~= seq![
                    PartView::CopyNode(name),
                    PartView::Tok(SyntaxKind::COLON),
                    PartView::Tok(SyntaxKind::WHITESPACE),
                    PartView::CopyNode(b),
                ]),
                None => assert(parts_view(parts@) =~= seq![PartView::CopyNode(name)]),
            }
        }
        let (r, cs) = build(tree, SyntaxKind::TYPE_PARAM, &parts);
        if self.mappings.is_some() {
            let mut b = SyntaxMappingBuilder::new(r);
            b.map_node(name, node_of(cs[0]));
            if let Some(bd) = bounds {
                b.map_node(bd, node_of(cs[3]));
            }
            proof {
                match bounds {
                    Some(bd) => assert(entries_of(r, b.node_map@) =~= seq![
                        entry(r, child_node(tree, r, 0), name),
                        entry(r, child_node(tree, r, 3), bd),
                    ]),
                    None => assert(entries_of(r, b.node_map@) =~= seq![
                        entry(r, child_node(tree, r, 0), name),
                    ]),
                }
            }
            self.record(b);
        }
        r
    }

    /// A binding pattern: `ref ` if `ref_`, `mut ` if `mut_`, then a copy of
    /// `name`.
    pub fn ident_pat(&mut self, tree: &mut Tree, ref_: bool, mut_: bool, name: usize) -> (r: usize)
        requires
            old(tree).wf(),
            old(tree).is_node(name),
            room(old(tree), 6),
        ensures
            final(tree).wf(),
            final(tree).extends(old(tree)),
            built(final(tree), old(tree), r, SyntaxKind::IDENT_PAT, ident_pat_parts(ref_, mut_, name)),
            records(
                old(self).recorded(),
                final(self).recorded(),
                seq![entry(r, child_node(final(tree), r, ident_pat_parts(ref_, mut_, name).len() - 1), name)],
            ),
    {
        let mut parts: Vec<Part> = Vec::new();
        if ref_ {
            parts.push(Part::Tok(SyntaxKind::REF_KW));
            parts.push(Part::Tok(SyntaxKind::WHITESPACE));
        }
        if mut_ {
            parts.push(Part::Tok(SyntaxKind::MUT_KW));
            parts.push(Part::Tok(SyntaxKind::WHITESPACE));
        }
        parts.push(Part::CopyNode(name));
        assert(parts_view(parts@) =~= ident_pat_parts(ref_, mut_, name));
        let last = parts.len() - 1;
        let (r, cs) = build(tree, SyntaxKind::IDENT_PAT, &parts);
        if self.mappings.is_some() {
            let mut b = SyntaxMappingBuilder::new(r);
            b.map_node(name, node_of(cs[last]));
            assert(entries_of(r, b.node_map@) =~= seq![entry(r, child_node(tree, r, last as int), name)]);
            self.record(b);
        }
        r
    }

    /// A binary expression: a copy of `lhs`, a space, the operator, a space,
    /// a copy of `rhs`.
    pub fn expr_bin(&mut self, tree: &mut Tree, lhs: usize, op: BinaryOp, rhs: usize) -> (r: usize)
        requires
            old(tree).wf(),
            old(tree).is_node(lhs),
            old(tree).is_node(rhs),
            room(old(tree), 7),
        ensures
            final(tree).wf(),
            final(tree).extends(old(tree)),
            built(
                final(tree),
                old(tree),
                r,
                SyntaxKind::BIN_EXPR,
                seq![
                    PartView::CopyNode(lhs),
                    PartView::Tok(SyntaxKind::WHITESPACE),
                    PartView::Tok(op_kind(op)),
                    PartView::Tok(SyntaxKind::WHITESPACE),
                    PartView::CopyNode(rhs),
                ],
            ),
            records(
                old(self).recorded(),
                final(self).recorded(),
                seq![
                    entry(r, child_node(final(tree), r, 0), lhs),
                    entry(r, child_node(final(tree), r, 4), rhs),
                ],
            ),
    {
        let k = op_token_kind(op);
        let parts = vec![
            Part::CopyNode(lhs),
            Part::Tok(SyntaxKind::WHITESPACE),
            Part::Tok(k),
            Part::Tok(SyntaxKind::WHITESPACE),
            Part::CopyNode(rhs),
        ];
        assert(parts_view(parts@) =~= seq![
            PartView::CopyNode(lhs),
            PartView::Tok(SyntaxKind::WHITESPACE),
            PartView::Tok(op_kind(op)),
            PartView::Tok(SyntaxKind::WHITESPACE),
            PartView::CopyNode(rhs),
        ]);
        let (r, cs) = build(tree, SyntaxKind::BIN_EXPR, &parts);
        if self.mappings.is_some() {
            let mut b = SyntaxMappingBuilder::new(r);
            b.map_node(lhs, node_of(cs[0]));
            b.map_node(rhs, node_of(cs[4]));
            assert(entries_of(r, b.node_map@) =~= seq![
                entry(r, child_node(tree, r, 0), lhs),
                entry(r, child_node(tree, r, 4), rhs),
            ]);
            self.record(b);
        }
        r
    }

    /// A path expression holding a copy of `path`.
    pub fn expr_path(&mut self, tree: &mut Tree, path: usize) -> (r: usize)
        requires
            old(tree).wf(),
            old(tree).is_node(path),
            room(old(tree), 3),
        ensures
            final(tree).wf(),
            final(tree).extends(old(tree)),
            built(final(tree), old(tree), r, SyntaxKind::PATH_EXPR, seq![PartView::CopyNode(path)]),
            records(
                old(self).recorded(),
                final(self).recorded(),
                seq![entry(r, child_node(final(tree), r, 0), path)],
            ),
    {
        let parts = vec![Part::CopyNode(path)];
        assert(parts_view(parts@) =~= seq![PartView::CopyNode(path)]);
        let (r, cs) = build(tree, SyntaxKind::PATH_EXPR, &parts);
        if self.mappings.is_some() {
            let mut b = SyntaxMappingBuilder::new(r);
            b.map_node(path, node_of(cs[0]));
            assert(entries_of(r, b.node_map@) =~= seq![entry(r, child_node(tree, r, 0), path)]);
            self.record(b);
        }
        r
    }

    /// A reference expression: `&`, then `mut ` if `exclusive`, then a copy of
    /// `expr`.
    pub fn expr_ref(&mut self, tree: &mut Tree, expr: usize, exclusive: bool) -> (r: usize)
        requires
            old(tree).wf(),
            old(tree).is_node(expr),
            room(old(tree), 5),
        ensures
            final(tree).wf(),
            final(tree).extends(old(tree)),
            built(final(tree), old(tree), r, SyntaxKind::REF_EXPR, expr_ref_parts(expr, exclusive)),
            records(
                old(self).recorded(),
                final(self).recorded(),
                seq![entry(r, child_node(final(tree), r, expr_ref_parts(expr, exclusive).len() - 1), expr)],
            ),
    {
        let mut parts = vec![Part::Tok(SyntaxKind::AMP)];
        if exclusive {
            parts.push(Part::Tok(SyntaxKind::MUT_KW));
            parts.push(Part::Tok(SyntaxKind::WHITESPACE));
        }
        parts.push(Part::CopyNode(expr));
        assert(parts_view(parts@) =~= expr_ref_parts(expr, exclusive));
        let last = parts.len() - 1;
        let (r, cs) = build(tree, SyntaxKind::REF_EXPR, &parts);
        if self.mappings.is_some() {
            let mut b = SyntaxMappingBuilder::new(r);
            b.map_node(expr, node_of(cs[last]));
            assert(entries_of(r, b.node_map@) =~= seq![entry(r, child_node(tree, r, last as int), expr)]);
            self.record(b);
        }
        r
    }

    /// A local declaration: `let `, a copy of `pattern`, then `: ` and a copy
    /// of the type where `ty` is given, then ` = ` and a copy of the
    /// initializer where `initializer` is given, then `;`.
    pub fn let_stmt(
        &mut self,
        tree: &mut Tree,
        pattern: usize,
        ty: Option<usize>,
        initializer: Option<usize>,
    ) -> (r: usize)
        requires
            old(tree).wf(),
            old(tree).is_node(pattern),
            ty matches Some(t) ==> old(tree).is_node(t),
            initializer matches Some(i) ==> old(tree).is_node(i),
            room(old(tree), 12),
        ensures
            final(tree).wf(),
            final(tree).extends(old(tree)),
            built(final(tree), old(tree), r, SyntaxKind::LET_STMT, let_stmt_parts(pattern, ty, initializer)),
            records(
                old(self).recorded(),
                final(self).recorded(),
                seq![entry(r, child_node(final(tree), r, 2), pattern)] + match ty {
                    Some(t) => seq![entry(r, child_node(final(tree), r, 5), t)],
                    None => Seq::empty(),
                } + match initializer {
                    Some(i) => seq![
                        entry(
                            r,
                            child_node(final(tree), r, let_stmt_parts(pattern, ty, initializer).len() - 2),
                            i,
                        ),
                    ],
                    None => Seq::empty(),
                },
            ),
    {
        let mut parts = vec![
            Part::Tok(SyntaxKind::LET_KW),
            Part::Tok(SyntaxKind::WHITESPACE),
            Part::CopyNode(pattern),
        ];
        if let Some(t) = ty {
            parts.push(Part::Tok(SyntaxKind::COLON));
            parts.push(Part::Tok(SyntaxKind::WHITESPACE));
            parts.push(Part::CopyNode(t));
        }
        if let Some(i) = initializer {
            parts.push(Part::Tok(SyntaxKind::WHITESPACE));
            parts.push(Part::Tok(SyntaxKind::EQ));
            parts.push(Part::Tok(SyntaxKind::WHITESPACE));
            parts.push(Part::CopyNode(i));
        }
        parts.push(Part::Tok(SyntaxKind::SEMICOLON));
        assert(parts_view(parts@) =~= let_stmt_parts(pattern, ty, initializer));
        let init_at = parts.len() - 2;
        let (r, cs) = build(tree, SyntaxKind::LET_STMT, &parts);
        if self.mappings.is_some() {
            let mut b = SyntaxMappingBuilder::new(r);
            b.map_node(pattern, node_of(cs[2]));
            if let Some(t) = ty {
                b.map_node(t, node_of(cs[5]));
            }
            if let Some(i) = initializer {
                b.map_node(i, node_of(cs[init_at]));
            }
            assert(entries_of(r, b.node_map@) =~= seq![entry(r, child_node(tree, r, 2), pattern)]
                + match ty {
                Some(t) => seq![entry(r, child_node(tree, r, 5), t)],
                None => Seq::empty(),
            } + match initializer {
                Some(i) => seq![entry(r, child_node(tree, r, init_at as int), i)],
                None => Seq::empty(),
            });
            self.record(b);
        }
        r
    }

    /// A block: a block node holding a statement list, which holds `{`, each
    /// statement (a copy) on its own indented line, then the tail expression
    /// (a copy) likewise where `tail_expr` is given, a line break and `}`.
    /// Recording maps the statements by position, then the tail expression.
    pub fn block_expr(&mut self, tree: &mut Tree, stmts: Vec<usize>, tail_expr: Option<usize>) -> (r: usize)
        requires
            old(tree).wf(),
            forall|k: int| 0 <= k < stmts@.len() ==> old(tree).is_node(#[trigger] stmts@[k]),
            tail_expr matches Some(t) ==> old(tree).is_node(t),
            room(old(tree), 2 * stmts@.len() as int + 10),
        ensures
            final(tree).wf(),
            final(tree).extends(old(tree)),
            old(tree).nn() <= r < final(tree).nn(),
            final(tree).node_kinds@[r as int] == SyntaxKind::BLOCK_EXPR,
            final(tree).children()[r as int] == seq![Elem::Node(child_node(final(tree), r, 0))],
            built(
                final(tree),
                old(tree),
                child_node(final(tree), r, 0),
                SyntaxKind::STMT_LIST,
                block_parts(stmts@, tail_expr),
            ),
            records(
                old(self).recorded(),
                final(self).recorded(),
                block_entries(final(tree), child_node(final(tree), r, 0), stmts@, tail_expr),
            ),
    {
        let ghost t0 = *tree;
        let mut parts = vec![Part::Tok(SyntaxKind::L_CURLY)];
        let n = stmts.len();
        let mut k: usize = 0;
        while k < n
            invariant
                k <= n == stmts@.len(),
                parts_view(parts@) == seq![PartView::Tok(SyntaxKind::L_CURLY)] + stmt_parts(stmts@).take(2 * k),
            decreases n - k,
        {
            let ghost pv0 = parts_view(parts@);
            let ws = vec!['\n', ' ', ' ', ' ', ' '];
            assert(ws@ =~= nl_indent());
            parts.push(Part::Text(SyntaxKind::WHITESPACE, ws));
            parts.push(Part::CopyNode(stmts[k]));
            assert(parts_view(parts@) =~= pv0.push(PartView::Text(SyntaxKind::WHITESPACE, nl_indent())).push(
                PartView::CopyNode(stmts@[k as int]),
            ));
            assert(stmt_parts(stmts@)[2 * k as int] == PartView::Text(SyntaxKind::WHITESPACE, nl_indent()));
            assert((2 * k as int + 1) / 2 == k as int);
            assert(stmt_parts(stmts@)[2 * k as int + 1] == PartView::CopyNode(stmts@[k as int]));
            assert(stmt_parts(stmts@).take(2 * k + 2) =~= stmt_parts(stmts@).take(2 * k).push(
                PartView::Text(SyntaxKind::WHITESPACE, nl_indent()),
            ).push(PartView::CopyNode(stmts@[k as int])));
            k = k + 1;
            assert(parts_view(parts@) =~= seq![PartView::Tok(SyntaxKind::L_CURLY)] + stmt_parts(stmts@).take(2 * k));
        }
        assert(stmt_parts(stmts@).take(2 * n) =~= stmt_parts(stmts@));
        let ghost pv1 = parts_view(parts@);
        if let Some(t) = tail_expr {
            let ws = vec!['\n', ' ', ' ', ' ', ' '];
            assert(ws@ =~= nl_indent());
            parts.push(Part::Text(SyntaxKind::WHITESPACE, ws));
            parts.push(Part::CopyNode(t));
        }
        let ghost pv2 = parts_view(parts@);
        assert(pv2 =~= pv1 + match tail_expr {
            Some(t) => seq![PartView::Text(SyntaxKind::WHITESPACE, nl_indent()), PartView::CopyNode(t)],
            None => Seq::empty(),
        });
        let nl = vec!['\n'];
        assert(nl@ =~= seq!['\n']);
        parts.push(Part::Text(SyntaxKind::WHITESPACE, nl));
        parts.push(Part::Tok(SyntaxKind::R_CURLY));
        assert(parts_view(parts@) =~= pv2.push(PartView::Text(SyntaxKind::WHITESPACE, seq!['\n'])).push(
            PartView::Tok(SyntaxKind::R_CURLY),
        ));
        assert(parts_view(parts@) =~= block_parts(stmts@, tail_expr));
        assert forall|j: int| 0 <= j < parts@.len() implies part_ok(&t0, #[trigger] parts@[j]@) by {
            assert(parts@[j]@ == block_parts(stmts@, tail_expr)[j]);
            if 1 <= j < 1 + 2 * n && (j - 1) % 2 == 1 {
                assert(stmt_parts(stmts@)[j - 1] == PartView::CopyNode(stmts@[(j - 1) / 2]));
            }
        }
        let (sl, cs) = build(tree, SyntaxKind::STMT_LIST, &parts);
        let ghost t1 = *tree;
        let r = tree.node_kinds.len();
        tree.new_node(SyntaxKind::BLOCK_EXPR, vec![Elem::Node(sl)]);
        proof {
            tree.lemma_adds_extends(&t1);
            tree.lemma_extends_trans(&t1, &t0);
            lemma_built_stable(tree, &t1, &t0, sl, SyntaxKind::STMT_LIST, block_parts(stmts@, tail_expr));
            assert(tree.children()[r as int] =~= seq![Elem::Node(sl)]);
            tree.lemma_extends_keeps(&t1, Elem::Node(sl));
        }
        if self.mappings.is_some() {
            let mut outs: Vec<usize> = Vec::new();
            let cl = cs.len();
            assert(cs@ == tree.children()[sl as int]);
            assert(cs@.len() == 2 * n + 3 + (if tail_expr is Some { 2int } else { 0 }));
            let mut k: usize = 0;
            while k < n
                invariant
                    k <= n == stmts@.len(),
                    cl == cs@.len(),
                    cs@ == tree.children()[sl as int],
                    cs@.len() == 2 * n + 3 + (if tail_expr is Some { 2int } else { 0 }),
                    outs@.len() == k,
                    forall|i: int| 0 <= i < k ==> #[trigger] outs@[i] == child_node(tree, sl, 2 * i + 2),
                decreases n - k,
            {
                outs.push(node_of(cs[2 * k + 2]));
                k = k + 1;
            }
            let mut b = SyntaxMappingBuilder::new(sl);
            b.map_children(&stmts, &outs);
            if let Some(t) = tail_expr {
                assert(2 * n + 2 < cl);
                b.map_node(t, node_of(cs[2 * n + 2]));
            }
            assert(entries_of(sl, b.node_map@) =~= block_entries(tree, sl, stmts@, tail_expr));
            self.record(b);
        }
        r
    }

    /// An explicit generic argument list: `::<`, copies of `args` separated by
    /// `, `, then `>`. Recording maps the arguments by position.
    pub fn turbofish_generic_arg_list(&mut self, tree: &mut Tree, args: Vec<usize>) -> (r: usize)
        requires
            old(tree).wf(),
            forall|k: int| 0 <= k < args@.len() ==> old(tree).is_node(#[trigger] args@[k]),
            room(old(tree), 3 * args@.len() as int + 6),
        ensures
            final(tree).wf(),
            final(tree).extends(old(tree)),
            built(final(tree), old(tree), r, SyntaxKind::GENERIC_ARG_LIST, arg_list_parts(args@)),
            records(
                old(self).recorded(),
                final(self).recorded(),
                Seq::new(args@.len(), |k: int| entry(r, child_node(final(tree), r, 3 * k + 2), args@[k])),
            ),
    {
        let ghost t0 = *tree;
        let mut parts = vec![Part::Tok(SyntaxKind::COLON2), Part::Tok(SyntaxKind::L_ANGLE)];
        let n = args.len();
        let mut k: usize = 0;
        while k < n
            invariant
                k <= n == args@.len(),
                parts_view(parts@) == seq![PartView::Tok(SyntaxKind::COLON2), PartView::Tok(SyntaxKind::L_ANGLE)]
                    + arg_parts(args@).take(if k == 0 { 0 } else { 3 * k - 2 }),
            decreases n - k,
        {
            let ghost pv0 = parts_view(parts@);
            let ghost ap = arg_parts(args@);
            assert((3 * k as int) / 3 == k as int && (3 * k as int) % 3 == 0);
            assert(ap[3 * k as int] == PartView::CopyNode(args@[k as int]));
            if k > 0 {
                parts.push(Part::Tok(SyntaxKind::COMMA));
                parts.push(Part::Tok(SyntaxKind::WHITESPACE));
                assert((3 * k as int - 2) % 3 == 1 && (3 * k as int - 1) % 3 == 2);
                assert(ap[3 * k as int - 2] == PartView::Tok(SyntaxKind::COMMA));
                assert(ap[3 * k as int - 1] == PartView::Tok(SyntaxKind::WHITESPACE));
                assert(ap.take(3 * k as int + 1) =~= ap.take(3 * k as int - 2).push(PartView::Tok(SyntaxKind::COMMA)).push(
                    PartView::Tok(SyntaxKind::WHITESPACE),
                ).push(PartView::CopyNode(args@[k as int])));
            } else {
                assert(ap.take(1) =~= seq![PartView::CopyNode(args@[0])]);
            }
            parts.push(Part::CopyNode(args[k]));
            assert(parts_view(parts@) =~= pv0 + (if k > 0 {
                seq![PartView::Tok(SyntaxKind::COMMA), PartView::Tok(SyntaxKind::WHITESPACE)]
            } else {
                Seq::empty()
            }) + seq![PartView::CopyNode(args@[k as int])]);
            k = k + 1;
            assert(parts_view(parts@) =~= seq![PartView::Tok(SyntaxKind::COLON2), PartView::Tok(SyntaxKind::L_ANGLE)]
                + arg_parts(args@).take(3 * k - 2));
        }
        assert(arg_parts(args@).take(if n == 0 { 0 } else { 3 * n - 2 }) =~= arg_parts(args@));
        parts.push(Part::Tok(SyntaxKind::R_ANGLE));
        assert(parts_view(parts@) =~= arg_list_parts(args@));
        assert forall|j: int| 0 <= j < parts@.len() implies part_ok(&t0, #[trigger] parts@[j]@) by {
            assert(parts@[j]@ == arg_list_parts(args@)[j]);
            if 2 <= j < parts@.len() - 1 && (j - 2) % 3 == 0 {
                assert(arg_parts(args@)[j - 2] == PartView::CopyNode(args@[(j - 2) / 3]));
            }
        }
        let (r, cs) = build(tree, SyntaxKind::GENERIC_ARG_LIST, &parts);
        if self.mappings.is_some() {
            let mut outs: Vec<usize> = Vec::new();
            let cl = cs.len();
            assert(cs@ == tree.children()[r as int]);
            assert(cs@.len() == if n == 0 { 3 } else { 3 * n + 1 });
            let mut k: usize = 0;
            while k < n
                invariant
                    k <= n == args@.len(),
                    cl == cs@.len(),
                    cs@ == tree.children()[r as int],
                    cs@.len() == if n == 0 { 3 } else { 3 * n + 1 },
                    outs@.len() == k,
                    forall|i: int| 0 <= i < k ==> #[trigger] outs@[i] == child_node(tree, r, 3 * i + 2),
                decreases n - k,
            {
                outs.push(node_of(cs[3 * k + 2]));
                k = k + 1;
            }
            let mut b = SyntaxMappingBuilder::new(r);
            b.map_children(&args, &outs);
            assert(entries_of(r, b.node_map@) =~= Seq::new(
                args@.len(),
                |k: int| entry(r, child_node(tree, r, 3 * k + 2), args@[k]),
            ));
            self.record(b);
        }
        r
    }

    /// A token group: the opening delimiter, a copy of each element of `tt`,
    /// the matching closing delimiter. Recording maps the nodes of `tt`, in
    /// order, to their copies.
    pub fn token_tree(&mut self, tree: &mut Tree, delimiter: SyntaxKind, tt: Vec<Elem>) -> (r: usize)
        requires
            old(tree).wf(),
            is_open_delimiter(delimiter),
            forall|k: int| 0 <= k < tt@.len() ==> old(tree).has(#[trigger] tt@[k]),
            room(old(tree), tt@.len() as int + 4),
        ensures
            final(tree).wf(),
            final(tree).extends(old(tree)),
            built(final(tree), old(tree), r, SyntaxKind::TOKEN_TREE, token_tree_parts(delimiter, tt@)),
            records(
                old(self).recorded(),
                final(self).recorded(),
                tt_entries(final(tree), r, tt@, tt@.len() as int),
            ),
    {
        let ghost t0 = *tree;
        let close = match delimiter {
            SyntaxKind::L_PAREN => SyntaxKind::R_PAREN,
            SyntaxKind::L_CURLY => SyntaxKind::R_CURLY,
            _ => SyntaxKind::R_BRACK,
        };
        let mut parts = vec![Part::Tok(delimiter)];
        let mut k: usize = 0;
        while k < tt.len()
            invariant
                k <= tt@.len(),
                parts_view(parts@) == seq![PartView::Tok(delimiter)] + tt@.take(k as int).map_values(|e: Elem| tt_part(e)),
            decreases tt@.len() - k,
        {
            let ghost pv0 = parts_view(parts@);
            match tt[k] {
                Elem::Node(n) => parts.push(Part::CopyNode(n)),
                Elem::Token(i) => parts.push(Part::CopyToken(i)),
            }
            assert(parts_view(parts@) =~= pv0.push(tt_part(tt@[k as int])));
            assert(tt@.take(k as int + 1).map_values(|e: Elem| tt_part(e)) =~= tt@.take(k as int).map_values(
                |e: Elem| tt_part(e),
            ).push(tt_part(tt@[k as int])));
            k = k + 1;
            assert(parts_view(parts@) =~= seq![PartView::Tok(delimiter)] + tt@.take(k as int).map_values(|e: Elem| tt_part(e)));
        }
        assert(tt@.take(k as int) =~= tt@);
        parts.push(Part::Tok(close));
        assert(parts_view(parts@) =~= token_tree_parts(delimiter, tt@));
        assert forall|j: int| 0 <= j < parts@.len() implies part_ok(&t0, #[trigger] parts@[j]@) by {
            assert(parts@[j]@ == token_tree_parts(delimiter, tt@)[j]);
            if 1 <= j < parts@.len() - 1 {
                assert(t0.has(tt@[j - 1]));
            }
        }
        let (r, cs) = build(tree, SyntaxKind::TOKEN_TREE, &parts);
        if self.mappings.is_some() {
            let mut b = SyntaxMappingBuilder::new(r);
            assert(cs@ == tree.children()[r as int]);
            assert(cs@.len() == tt@.len() + 2);
            assert(entries_of(r, b.node_map@) =~= tt_entries(tree, r, tt@, 0));
            let mut k: usize = 0;
            while k < tt.len()
                invariant
                    k <= tt@.len(),
                    cs@ == tree.children()[r as int],
                    cs@.len() == tt@.len() + 2,
                    b.parent == r,
                    entries_of(r, b.node_map@) == tt_entries(tree, r, tt@, k as int),
                decreases tt@.len() - k,
            {
                if let Elem::Node(n) = tt[k] {
                    b.map_node(n, node_of(cs[k + 1]));
                }
                k = k + 1;
                assert(entries_of(r, b.node_map@) =~= tt_entries(tree, r, tt@, k as int));
            }
            self.record(b);
        }
        r
    }
}

proof fn lemma_built_stable(t2: &Tree, t1: &Tree, old: &Tree, r: usize, k: SyntaxKind, ps: Seq<PartView>)
    requires
        t2.wf(),
        t1.wf(),
        t2.extends(t1),
        built(t1, old, r, k, ps),
    ensures
        built(t2, old, r, k, ps),
{
    t2.lemma_extends_keeps(t1, Elem::Node(r));
    assert forall|j: int| 0 <= j < ps.len() implies realizes(t2, old, #[trigger] t2.children()[r as int][j], ps[j]) by {
        assert(t1.has(t1.children()[r as int][j]));
        lemma_realizes_stable(t2, t1, old, t1.children()[r as int][j], ps[j]);
    }
}

pub open spec fn nl_indent() -> Seq<char> {
    seq!['\n', ' ', ' ', ' ', ' ']
}

/// Each statement on a line of its own: a line break and indent, then a copy.
pub open spec fn stmt_parts(stmts: Seq<usize>) -> Seq<PartView> {
    Seq::new(
        2 * stmts.len(),
        |i: int|
            if i % 2 == 0 {
                PartView::Text(SyntaxKind::WHITESPACE, nl_indent())
            } else {
                PartView::CopyNode(stmts[i / 2])
            },
    )
}

pub open spec fn block_parts(stmts: Seq<usize>, tail_expr: Option<usize>) -> Seq<PartView> {
    seq![PartView::Tok(SyntaxKind::L_CURLY)] + stmt_parts(stmts) + match tail_expr {
        Some(t) => seq![PartView::Text(SyntaxKind::WHITESPACE, nl_indent()), PartView::CopyNode(t)],
        None => Seq::empty(),
    } + seq![PartView::Text(SyntaxKind::WHITESPACE, seq!['\n']), PartView::Tok(SyntaxKind::R_CURLY)]
}

/// What a block records: each statement to its copy, then the tail
/// expression to its copy.
pub open spec fn block_entries(t: &Tree, sl: usize, stmts: Seq<usize>, tail_expr: Option<usize>) -> Seq<
    MappingEntry,
> {
    Seq::new(stmts.len(), |k: int| entry(sl, child_node(t, sl, 2 * k + 2), stmts[k])) + match tail_expr {
        Some(e) => seq![entry(sl, child_node(t, sl, 2 * stmts.len() as int + 2), e)],
        None => Seq::empty(),
    }
}

/// Copies of `args` separated by a comma and a space.
pub open spec fn arg_parts(args: Seq<usize>) -> Seq<PartView> {
    if args.len() == 0 {
        Seq::empty()
    } else {
        Seq::new(
            (3 * args.len() - 2) as nat,
            |i: int|
                if i % 3 == 0 {
                    PartView::CopyNode(args[i / 3])
                } else if i % 3 == 1 {
                    PartView::Tok(SyntaxKind::COMMA)
                } else {
                    PartView::Tok(SyntaxKind::WHITESPACE)
                },
        )
    }
}

pub open spec fn arg_list_parts(args: Seq<usize>) -> Seq<PartView> {
    seq![PartView::Tok(SyntaxKind::COLON2), PartView::Tok(SyntaxKind::L_ANGLE)] + arg_parts(args) + seq![
        PartView::Tok(SyntaxKind::R_ANGLE),
    ]
}

pub open spec fn tt_part(e: Elem) -> PartView {
    match e {
        Elem::Node(n) => PartView::CopyNode(n),
        Elem::Token(i) => PartView::CopyToken(i),
    }
}

pub open spec fn token_tree_parts(delimiter: SyntaxKind, tt: Seq<Elem>) -> Seq<PartView> {
    seq![PartView::Tok(delimiter)] + tt.map_values(|e: Elem| tt_part(e)) + seq![
        PartView::Tok(closing(delimiter)),
    ]
}

/// What a token group records for its first `k` elements: each node among
/// them to its copy, in order.
pub open spec fn tt_entries(t: &Tree, r: usize, tt: Seq<Elem>, k: int) -> Seq<MappingEntry>
    decreases k,
{
    if k <= 0 {
        Seq::empty()
    } else {
        tt_entries(t, r, tt, k - 1) + match tt[k - 1] {
            Elem::Node(n) => seq![entry(r, child_node(t, r, k), n)],
            Elem::Token(_) => Seq::empty(),
        }
    }
}

pub open spec fn ident_pat_parts(ref_: bool, mut_: bool, name: usize) -> Seq<PartView> {
    (if ref_ {
        seq![PartView::Tok(SyntaxKind::REF_KW), PartView::Tok(SyntaxKind::WHITESPACE)]
    } else {
        Seq::empty()
    }) + (if mut_ {
        seq![PartView::Tok(SyntaxKind::MUT_KW), PartView::Tok(SyntaxKind::WHITESPACE)]
    } else {
        Seq::empty()
    }) + seq![PartView::CopyNode(name)]
}

pub open spec fn expr_ref_parts(expr: usize, exclusive: bool) -> Seq<PartView> {
    seq![PartView::Tok(SyntaxKind::AMP)] + (if exclusive {
        seq![PartView::Tok(SyntaxKind::MUT_KW), PartView::Tok(SyntaxKind::WHITESPACE)]
    } else {
        Seq::empty()
    }) + seq![PartView::CopyNode(expr)]
}

pub open spec fn let_stmt_parts(pattern: usize, ty: Option<usize>, initializer: Option<usize>) -> Seq<
    PartView,
> {
    seq![
        PartView::Tok(SyntaxKind::LET_KW),
        PartView::Tok(SyntaxKind::WHITESPACE),
        PartView::CopyNode(pattern),
    ] + match ty {
        Some(t) => seq![
            PartView::Tok(SyntaxKind::COLON),
            PartView::Tok(SyntaxKind::WHITESPACE),
            PartView::CopyNode(t),
        ],
        None => Seq::empty(),
    } + match initializer {
        Some(i) => seq![
            PartView::Tok(SyntaxKind::WHITESPACE),
            PartView::Tok(SyntaxKind::EQ),
            PartView::Tok(SyntaxKind::WHITESPACE),
            PartView::CopyNode(i),
        ],
        None => Seq::empty(),
    } + seq![PartView::Tok(SyntaxKind::SEMICOLON)]
}

/// The node an element is, or 0 for a token.
pub fn node_of(e: Elem) -> (r: usize)
    ensures
        r == match e {
            Elem::Node(c) => c,
            Elem::Token(_) => 0,
        },
{
    match e {
        Elem::Node(c) => c,
        Elem::Token(_) => 0,
    }
}

} // verus!
