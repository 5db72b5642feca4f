//! Structural recipes built on the editor: adding a generic parameter to a
//! function, removing an import declaration or one clause of a grouped import.
use vstd::prelude::*;
use crate::editor::{find_slot, slot_of, ChangeView, Position, SyntaxEditor};
use crate::factory::{node_of, room, SyntaxFactory};
use crate::tree::{fixed_text, Elem, SyntaxKind, Tree};

verus! {

/// The first index at or after `j` whose element is a node (if `node`) or a
/// token (if not) of kind `k`.
pub open spec fn first_with(t: &Tree, cs: Seq<Elem>, k: SyntaxKind, node: bool, j: int) -> Option<int>
    decreases cs.len() - j,
{
    if j < 0 || j >= cs.len() {
        None
    } else if (cs[j] is Node) == node && t.kind(cs[j]) == k {
        Some(j)
    } else {
        first_with(t, cs, k, node, j + 1)
    }
}

/// The last index below `j` whose element is a node of kind `k`.
pub open spec fn last_node_before(t: &Tree, cs: Seq<Elem>, k: SyntaxKind, j: int) -> Option<int>
    decreases j,
{
    if j <= 0 || j > cs.len() {
        None
    } else if cs[j - 1] is Node && t.kind(cs[j - 1]) == k {
        Some(j - 1)
    } else {
        last_node_before(t, cs, k, j - 1)
    }
}

pub open spec fn is_generic_param_kind(k: SyntaxKind) -> bool {
    k == SyntaxKind::TYPE_PARAM || k == SyntaxKind::LIFETIME_PARAM || k == SyntaxKind::CONST_PARAM
}

/// The last index below `j` whose element is a generic parameter node.
pub open spec fn last_param_before(t: &Tree, cs: Seq<Elem>, j: int) -> Option<int>
    decreases j,
{
    if j <= 0 || j > cs.len() {
        None
    } else if cs[j - 1] is Node && is_generic_param_kind(t.kind(cs[j - 1])) {
        Some(j - 1)
    } else {
        last_param_before(t, cs, j - 1)
    }
}

/// `new` is `old` with fresh tokens of kinds `ks` and texts `ts` added.
pub open spec fn adds_tokens(new: &Tree, old: &Tree, ks: Seq<SyntaxKind>, ts: Seq<Seq<char>>) -> bool {
    &&& new.wf()
    &&& new.node_kinds@ == old.node_kinds@
    &&& new.children() == old.children()
    &&& new.token_kinds@ == old.token_kinds@ + ks
    &&& ks.len() == ts.len()
    &&& new.token_texts@.len() == old.token_texts@.len() + ts.len()
    &&& new.token_texts@.take(old.nt() as int) == old.token_texts@
    &&& forall|i: int| 0 <= i < ts.len() ==> #[trigger] new.token_texts@[old.nt() + i]@ == ts[i]
}

pub open spec fn texts_of(ks: Seq<SyntaxKind>) -> Seq<Seq<char>> {
    Seq::new(ks.len(), |i: int| fixed_text(ks[i])->0)
}

/// Where the generic parameter list of a function that has none goes: after
/// its name, else after its keyword, else before its parameter list, else at
/// its end.
pub open spec fn new_list_position(t: &Tree, f: usize) -> Position {
    let fc = t.children()[f as int];
    match first_with(t, fc, SyntaxKind::NAME, true, 0) {
        Some(i) => Position::After(fc[i]),
        None => match first_with(t, fc, SyntaxKind::FN_KW, false, 0) {
            Some(i) => Position::After(fc[i]),
            None => match first_with(t, fc, SyntaxKind::PARAM_LIST, true, 0) {
                Some(i) => Position::Before(fc[i]),
                None => Position::LastChildOf(f),
            },
        },
    }
}

/// The kinds of the tokens that adding a generic parameter to function `f`
/// makes, in order, and the edits it stages, where the first of those tokens
/// is token `nt` of the arena.
pub open spec fn generic_param_plan(t: &Tree, f: usize, p: usize, nt: nat) -> (Seq<SyntaxKind>, Seq<ChangeView>) {
    let fc = t.children()[f as int];
    let t0 = Elem::Token(nt as usize);
    let t1 = Elem::Token((nt + 1) as usize);
    let np = Elem::Node(p);
    match first_with(t, fc, SyntaxKind::GENERIC_PARAM_LIST, true, 0) {
        Some(gi) => {
            let g = node_of_spec(fc[gi]);
            let gc = t.children()[g as int];
            match last_param_before(t, gc, gc.len() as int) {
                Some(li) => {
                    let last = gc[li];
                    if li + 1 < gc.len() && t.kind(gc[li + 1]) == SyntaxKind::COMMA {
                        (
                            seq![SyntaxKind::WHITESPACE, SyntaxKind::COMMA],
                            seq![
                                ChangeView::Insert(Position::After(last), seq![np]),
                                ChangeView::Insert(Position::After(last), seq![t0]),
                                ChangeView::Insert(Position::After(last), seq![t1]),
                            ],
                        )
                    } else {
                        (
                            seq![SyntaxKind::COMMA, SyntaxKind::WHITESPACE],
                            seq![ChangeView::Insert(Position::After(last), seq![t0, t1, np])],
                        )
                    }
                },
                None => {
                    let pos = match first_with(t, gc, SyntaxKind::L_ANGLE, false, 0) {
                        Some(ai) => Position::After(gc[ai]),
                        None => Position::LastChildOf(g),
                    };
                    (Seq::empty(), seq![ChangeView::Insert(pos, seq![np])])
                },
            }
        },
        None => (
            seq![SyntaxKind::L_ANGLE, SyntaxKind::R_ANGLE],
            seq![ChangeView::Insert(new_list_position(t, f), seq![t0, np, t1])],
        ),
    }
}

pub open spec fn node_of_spec(e: Elem) -> usize {
    match e {
        Elem::Node(c) => c,
        Elem::Token(_) => 0,
    }
}

/// The first index at or after `from` in `cs` of a node (if `node`) or a
/// token of kind `k`.
pub fn find_with(tree: &Tree, cs: &Vec<Elem>, k: SyntaxKind, node: bool, from: usize) -> (r: Option<usize>)
    requires
        tree.wf(),
        forall|j: int| 0 <= j < cs@.len() ==> tree.has(#[trigger] cs@[j]),
    ensures
        match first_with(tree, cs@, k, node, from as int) {
            Some(i) => r matches Some(a) && a as int == i && from <= i < cs@.len() && (cs@[i] is Node) == node
                && tree.kind(cs@[i]) == k,
            None => r is None,
        },
{
    proof {
        lemma_first_with(tree, cs@, k, node, from as int);
    }
    let mut j: usize = from;
    while j < cs.len()
        invariant
            from <= j,
            tree.wf(),
            forall|i: int| 0 <= i < cs@.len() ==> tree.has(#[trigger] cs@[i]),
            first_with(tree, cs@, k, node, from as int) == first_with(tree, cs@, k, node, j as int),
        decreases cs@.len() - j,
    {
        let e = cs[j];
        let is_node = match e {
            Elem::Node(_) => true,
            Elem::Token(_) => false,
        };
        if is_node == node && tree.kind_of(e) == k {
            return Some(j);
        }
        j = j + 1;
    }
    None
}

fn find_last_param(tree: &Tree, cs: &Vec<Elem>) -> (r: Option<usize>)
    requires
        tree.wf(),
        forall|j: int| 0 <= j < cs@.len() ==> tree.has(#[trigger] cs@[j]),
    ensures
        match last_param_before(tree, cs@, cs@.len() as int) {
            Some(i) => r matches Some(a) && a as int == i && 0 <= i < cs@.len(),
            None => r is None,
        },
{
    proof {
        lemma_last_param(tree, cs@, cs@.len() as int);
    }
    let mut j: usize = cs.len();
    while j > 0
        invariant
            j <= cs@.len(),
            tree.wf(),
            forall|i: int| 0 <= i < cs@.len() ==> tree.has(#[trigger] cs@[i]),
            last_param_before(tree, cs@, cs@.len() as int) == last_param_before(tree, cs@, j as int),
        decreases j,
    {
        let e = cs[j - 1];
        if let Elem::Node(_) = e {
            let k = tree.kind_of(e);
            if k == SyntaxKind::TYPE_PARAM || k == SyntaxKind::LIFETIME_PARAM || k == SyntaxKind::CONST_PARAM {
                return Some(j - 1);
            }
        }
        j = j - 1;
    }
    None
}

fn children_in_tree(tree: &Tree, n: usize)
    requires
        tree.wf(),
        tree.is_node(n),
    ensures
        forall|j: int| 0 <= j < tree.children()[n as int].len() ==> tree.has(#[trigger] tree.children()[n as int][j]),
{
    assert forall|j: int| 0 <= j < tree.children()[n as int].len() implies tree.has(
        #[trigger] tree.children()[n as int][j],
    ) by {
        assert(crate::tree::elem_in(tree.children()[n as int][j], tree.nn(), tree.nt()));
    }
}

impl SyntaxEditor {
    /// Stages the edits that add the generic parameter `new_param` as the last
    /// parameter of function `function`:
    /// - where the function has a list with parameters, after the last of them:
    ///   where a comma already follows it, the parameter, then a space and a
    ///   comma, inserted right after it (the trailing comma stays last);
    ///   else a comma, a space and the parameter, inserted right after it;
    /// - where it has an empty list, the parameter after the opening bracket;
    /// - where it has none, `<`, the parameter and `>` after its name (else its
    ///   keyword, else before its parameter list, else at its end).
    /// The tokens it needs are added to `tree`.
    pub fn add_generic_param(&mut self, tree: &mut Tree, function: usize, new_param: usize)
        requires
            old(tree).wf(),
            old(tree).is_node(function),
            room(old(tree), 2),
        ensures
            adds_tokens(
                final(tree),
                old(tree),
                generic_param_plan(old(tree), function, new_param, old(tree).nt()).0,
                texts_of(generic_param_plan(old(tree), function, new_param, old(tree).nt()).0),
            ),
            final(self)@ == old(self)@ + generic_param_plan(old(tree), function, new_param, old(tree).nt()).1,
    {
        let ghost t0 = *tree;
        let ghost plan = generic_param_plan(&t0, function, new_param, t0.nt());
        let make = SyntaxFactory::new();
        let np = Elem::Node(new_param);
        let fc = tree.children_of(function);
        children_in_tree(tree, function);
        match find_with(tree, &fc, SyntaxKind::GENERIC_PARAM_LIST, true, 0) {
            Some(gi) => {
                let g = node_of(fc[gi]);

                let gc = tree.children_of(g);
                children_in_tree(tree, g);
                match find_last_param(tree, &gc) {
                    Some(li) => {
                        let last = gc[li];
                        let comma_follows = li + 1 < gc.len() && tree.kind_of(gc[li + 1]) == SyntaxKind::COMMA;
                        if comma_follows {
                            self.insert(Position::after(last), np);
                            let ws = make.token(tree, SyntaxKind::WHITESPACE);
                            let ghost t1 = *tree;
                            self.insert(Position::after(last), ws);
                            let comma = make.token(tree, SyntaxKind::COMMA);
                            self.insert(Position::after(last), comma);
                            proof {
                                lemma_two_tokens(tree, &t1, &t0, SyntaxKind::WHITESPACE, SyntaxKind::COMMA);
                                assert(final(self)@ =~= old(self)@ + plan.1);
                            }
                        } else {
                            let comma = make.token(tree, SyntaxKind::COMMA);
                            let ghost t1 = *tree;
                            let ws = make.token(tree, SyntaxKind::WHITESPACE);
                            let elements = vec![comma, ws, np];
                            proof {
                                lemma_two_tokens(tree, &t1, &t0, SyntaxKind::COMMA, SyntaxKind::WHITESPACE);
                            }
                            self.insert_all(Position::after(last), elements);
                            assert(final(self)@ =~= old(self)@ + plan.1);
                        }
                    },
                    None => {
                        let pos = match find_with(tree, &gc, SyntaxKind::L_ANGLE, false, 0) {
                            Some(ai) => Position::after(gc[ai]),
                            None => Position::last_child_of(g),
                        };
                        self.insert(pos, np);
                        proof {
                            lemma_no_tokens(tree);
                        }
                        assert(final(self)@ =~= old(self)@ + plan.1);
                    },
                }
            },
            None => {
                let pos = match find_with(tree, &fc, SyntaxKind::NAME, true, 0) {
                    Some(i) => Position::after(fc[i]),
                    None => match find_with(tree, &fc, SyntaxKind::FN_KW, false, 0) {
                        Some(i) => Position::after(fc[i]),
                        None => match find_with(tree, &fc, SyntaxKind::PARAM_LIST, true, 0) {
                            Some(i) => Position::before(fc[i]),
                            None => Position::last_child_of(function),
                        },
                    },
                };
                let l = make.token(tree, SyntaxKind::L_ANGLE);
                let ghost t1 = *tree;
                let r = make.token(tree, SyntaxKind::R_ANGLE);
                let elements = vec![l, np, r];
                proof {
                    lemma_two_tokens(tree, &t1, &t0, SyntaxKind::L_ANGLE, SyntaxKind::R_ANGLE);
                }
                self.insert_all(pos, elements);
                assert(final(self)@ =~= old(self)@ + plan.1);
            },
        }
    }
}

proof fn lemma_first_with(t: &Tree, cs: Seq<Elem>, k: SyntaxKind, node: bool, j: int)
    requires
        0 <= j,
    ensures
        first_with(t, cs, k, node, j) matches Some(i) ==> j <= i < cs.len() && (cs[i] is Node) == node
            && t.kind(cs[i]) == k,
    decreases cs.len() - j,
{
    if j < cs.len() {
        lemma_first_with(t, cs, k, node, j + 1);
    }
}

proof fn lemma_last_param(t: &Tree, cs: Seq<Elem>, j: int)
    ensures
        last_param_before(t, cs, j) matches Some(i) ==> 0 <= i < j <= cs.len() && cs[i] is Node
            && is_generic_param_kind(t.kind(cs[i])),
    decreases j,
{
    if 0 < j <= cs.len() {
        lemma_last_param(t, cs, j - 1);
    }
}

proof fn lemma_last_node(t: &Tree, cs: Seq<Elem>, k: SyntaxKind, j: int)
    ensures
        last_node_before(t, cs, k, j) matches Some(i) ==> 0 <= i < j <= cs.len() && cs[i] is Node
            && t.kind(cs[i]) == k,
    decreases j,
{
    if 0 < j <= cs.len() {
        lemma_last_node(t, cs, k, j - 1);
    }
}

proof fn lemma_two_tokens(t2: &Tree, t1: &Tree, t0: &Tree, k0: SyntaxKind, k1: SyntaxKind)
    requires
        t0.wf(),
        t1.wf(),
        t2.wf(),
        fixed_text(k0) is Some,
        fixed_text(k1) is Some,
        t1.adds_token(t0, k0, fixed_text(k0)->0),
        t2.adds_token(t1, k1, fixed_text(k1)->0),
    ensures
        adds_tokens(t2, t0, seq![k0, k1], texts_of(seq![k0, k1])),
{
    assert(t2.token_kinds@ =~= t0.token_kinds@ + seq![k0, k1]);
    assert(t2.token_texts@.take(t0.nt() as int) =~= t0.token_texts@) by {
        assert(t2.token_texts@.take(t0.nt() as int) =~= t2.token_texts@.take(t1.nt() as int).take(
            t0.nt() as int,
        ));
    }
    assert(t2.token_texts@[t0.nt() as int] == t2.token_texts@.take(t1.nt() as int)[t0.nt() as int]);
}

proof fn lemma_no_tokens(t: &Tree)
    requires
        t.wf(),
    ensures
        adds_tokens(t, t, Seq::empty(), texts_of(Seq::empty())),
{
    assert(t.token_kinds@ + Seq::<SyntaxKind>::empty() =~= t.token_kinds@);
    assert(t.token_texts@.take(t.nt() as int) =~= t.token_texts@);
    assert(texts_of(Seq::empty()) =~= Seq::<Seq<char>>::empty());
}

/// The index of the first line break at or after `i`.
pub open spec fn first_nl(s: Seq<char>, i: int) -> Option<int>
    decreases s.len() - i,
{
    if i < 0 || i >= s.len() {
        None
    } else if s[i] == '\n' {
        Some(i)
    } else {
        first_nl(s, i + 1)
    }
}

/// The index of the last line break below `j`.
pub open spec fn last_nl(s: Seq<char>, j: int) -> Option<int>
    decreases j,
{
    if j <= 0 || j > s.len() {
        None
    } else if s[j - 1] == '\n' {
        Some(j - 1)
    } else {
        last_nl(s, j - 1)
    }
}

/// The whitespace token at index `i` of `cs`, if that is one.
pub open spec fn ws_at(t: &Tree, cs: Seq<Elem>, i: int) -> Option<usize> {
    if 0 <= i < cs.len() {
        match cs[i] {
            Elem::Token(k) => if t.token_kinds@[k as int] == SyntaxKind::WHITESPACE {
                Some(k)
            } else {
                None
            },
            Elem::Node(_) => None,
        }
    } else {
        None
    }
}

/// What becomes of whitespace `w` that follows a removed declaration: what
/// stands after its first line break, or `None` where it has none.
pub open spec fn ws_after_removal(w: Seq<char>) -> Option<Seq<char>> {
    match first_nl(w, 0) {
        Some(q) => Some(w.skip(q + 1)),
        None => None,
    }
}

/// What becomes of whitespace `w` that precedes a removed declaration: what
/// stands up to and including its last line break (empty where it has none).
pub open spec fn ws_before_removal(w: Seq<char>) -> Seq<char> {
    match last_nl(w, w.len() as int) {
        Some(q) => w.take(q + 1),
        None => Seq::empty(),
    }
}

/// The edit for whitespace token `e` that is to hold `rest`: deleted where
/// `rest` is empty, else replaced by the fresh token `nt`. Also the texts of
/// the fresh tokens it needs.
pub open spec fn ws_edit(e: Elem, rest: Seq<char>, nt: nat) -> (Seq<Seq<char>>, Seq<ChangeView>) {
    if rest.len() == 0 {
        (Seq::empty(), seq![ChangeView::Delete(e)])
    } else {
        (seq![rest], seq![ChangeView::Replace(e, seq![Elem::Token(nt as usize)])])
    }
}

/// The texts of the whitespace tokens that removing import declaration `u`
/// makes, in order, and the edits it stages, where the first of those tokens
/// is token `nt` of the arena.
pub open spec fn use_removal_plan(t: &Tree, u: usize, nt: nat) -> (Seq<Seq<char>>, Seq<ChangeView>) {
    match slot_of(t.children(), Elem::Node(u)) {
        Some((p, j)) => {
            let cs = t.children()[p];
            let next = match ws_at(t, cs, j + 1) {
                Some(w) => match ws_after_removal(t.token_texts@[w as int]@) {
                    Some(rest) => ws_edit(cs[j + 1], rest, nt),
                    None => (Seq::empty(), Seq::empty()),
                },
                None => (Seq::empty(), Seq::empty()),
            };
            let prev = match ws_at(t, cs, j - 1) {
                Some(w) => ws_edit(cs[j - 1], ws_before_removal(t.token_texts@[w as int]@), nt + next.0.len()),
                None => (Seq::empty(), Seq::empty()),
            };
            (next.0 + prev.0, next.1 + prev.1 + seq![ChangeView::Delete(Elem::Node(u))])
        },
        None => (Seq::empty(), seq![ChangeView::Delete(Elem::Node(u))]),
    }
}

/// The edits that removing clause `c` of a grouped import stages: the
/// elements between it and the next clause, else those between it and the
/// previous clause (nearest first), then the clause itself.
pub open spec fn use_tree_removal_plan(t: &Tree, c: usize) -> Seq<ChangeView> {
    match slot_of(t.children(), Elem::Node(c)) {
        Some((p, j)) => {
            let cs = t.children()[p];
            (match first_with(t, cs, SyntaxKind::USE_TREE, true, j + 1) {
                Some(k) => Seq::new((k - j - 1) as nat, |i: int| ChangeView::Delete(cs[j + 1 + i])),
                None => match last_node_before(t, cs, SyntaxKind::USE_TREE, j) {
                    Some(k) => Seq::new((j - k - 1) as nat, |i: int| ChangeView::Delete(cs[j - 1 - i])),
                    None => Seq::empty(),
                },
            }) + seq![ChangeView::Delete(Elem::Node(c))]
        },
        None => seq![ChangeView::Delete(Elem::Node(c))],
    }
}

fn find_nl(s: &Vec<char>) -> (r: Option<usize>)
    ensures
        match first_nl(s@, 0) {
            Some(q) => r matches Some(a) && a as int == q && 0 <= q < s@.len(),
            None => r is None,
        },
{
    let mut i: usize = 0;
    while i < s.len()
        invariant
            i <= s@.len(),
            first_nl(s@, 0) == first_nl(s@, i as int),
        decreases s@.len() - i,
    {
        if s[i] == '\n' {
            return Some(i);
        }
        i = i + 1;
    }
    None
}

fn rfind_nl(s: &Vec<char>) -> (r: Option<usize>)
    ensures
        match last_nl(s@, s@.len() as int) {
            Some(q) => r matches Some(a) && a as int == q && 0 <= q < s@.len(),
            None => r is None,
        },
{
    let mut j: usize = s.len();
    while j > 0
        invariant
            j <= s@.len(),
            last_nl(s@, s@.len() as int) == last_nl(s@, j as int),
        decreases j,
    {
        if s[j - 1] == '\n' {
            return Some(j - 1);
        }
        j = j - 1;
    }
    None
}

fn sub_chars(s: &Vec<char>, a: usize, b: usize) -> (r: Vec<char>)
    requires
        a <= b <= s@.len(),
    ensures
        r@ == s@.subrange(a as int, b as int),
{
    let mut r: Vec<char> = Vec::new();
    let mut i: usize = a;
    while i < b
        invariant
            a <= i <= b <= s@.len(),
            r@ == s@.subrange(a as int, i as int),
        decreases b - i,
    {
        r.push(s[i]);
        i = i + 1;
        assert(r@ =~= s@.subrange(a as int, i as int));
    }
    r
}

/// Stages the edit for whitespace token `e`, which is to hold `rest`.
fn stage_ws_edit(editor: &mut SyntaxEditor, tree: &mut Tree, e: Elem, rest: Vec<char>)
    requires
        old(tree).wf(),
        room(old(tree), 1),
    ensures
        adds_tokens(final(tree), old(tree), ws_kinds(ws_edit(e, rest@, old(tree).nt()).0.len()), ws_edit(e, rest@, old(tree).nt()).0),
        final(editor)@ == old(editor)@ + ws_edit(e, rest@, old(tree).nt()).1,
{
    if rest.len() == 0 {
        editor.delete(e);
        proof {
            lemma_no_ws(tree);
        }
        assert(final(editor)@ =~= old(editor)@ + ws_edit(e, rest@, old(tree).nt()).1);
    } else {
        let ghost rv = rest@;
        let make = SyntaxFactory::new();
        let w = make.whitespace(tree, rest);
        editor.replace(e, w);
        proof {
            assert(tree.token_kinds@ =~= old(tree).token_kinds@ + ws_kinds(1));
            assert(tree.token_texts@.take(old(tree).nt() as int) =~= old(tree).token_texts@);
        }
        assert(final(editor)@ =~= old(editor)@ + ws_edit(e, rv, old(tree).nt()).1);
    }
}

pub open spec fn ws_kinds(n: nat) -> Seq<SyntaxKind> {
    Seq::new(n, |i: int| SyntaxKind::WHITESPACE)
}

proof fn lemma_adds_tokens_trans(
    t2: &Tree,
    t1: &Tree,
    t0: &Tree,
    k1: Seq<SyntaxKind>,
    s1: Seq<Seq<char>>,
    k2: Seq<SyntaxKind>,
    s2: Seq<Seq<char>>,
)
    requires
        t0.wf(),
        adds_tokens(t1, t0, k1, s1),
        adds_tokens(t2, t1, k2, s2),
    ensures
        adds_tokens(t2, t0, k1 + k2, s1 + s2),
{
    assert(t2.token_kinds@ =~= t0.token_kinds@ + (k1 + k2));
    assert(t2.token_texts@.take(t0.nt() as int) =~= t0.token_texts@) by {
        assert(t2.token_texts@.take(t0.nt() as int) =~= t2.token_texts@.take(t1.nt() as int).take(
            t0.nt() as int,
        ));
    }
    assert forall|i: int| 0 <= i < (s1 + s2).len() implies #[trigger] t2.token_texts@[t0.nt() + i]@
        == (s1 + s2)[i] by {
        if i < s1.len() {
            assert(t2.token_texts@[t0.nt() + i] == t2.token_texts@.take(t1.nt() as int)[t0.nt() + i]);
        } else {
            assert(t2.token_texts@[t1.nt() + (i - s1.len())]@ == s2[i - s1.len()]);
        }
    }
}

/// Stages the removal of import declaration `u`, with the whitespace around
/// it: whitespace after it keeps what stands after its first line break
/// (deleted where nothing does; kept whole where it has no line break);
/// whitespace before it keeps what stands up to and including its last line
/// break (deleted where nothing does).
pub fn remove_use(editor: &mut SyntaxEditor, tree: &mut Tree, u: usize)
    requires
        old(tree).wf(),
        room(old(tree), 2),
    ensures
        adds_tokens(
            final(tree),
            old(tree),
            ws_kinds(use_removal_plan(old(tree), u, old(tree).nt()).0.len()),
            use_removal_plan(old(tree), u, old(tree).nt()).0,
        ),
        final(editor)@ == old(editor)@ + use_removal_plan(old(tree), u, old(tree).nt()).1,
{
    let ghost t0 = *tree;
    let ghost plan = use_removal_plan(&t0, u, t0.nt());
    match find_slot(&tree.node_children, Elem::Node(u)) {
        None => {
            editor.delete(Elem::Node(u));
            proof {
                lemma_no_ws(tree);
            }
            assert(final(editor)@ =~= old(editor)@ + plan.1);
        },
        Some((p, j)) => {
            proof {
                crate::editor::lemma_slot(t0.children(), Elem::Node(u));
                let sl = slot_of(t0.children(), Elem::Node(u))->0;
                assert(sl.0 == p && sl.1 == j);
            }
            let cs = tree.children_of(p);
            children_in_tree(tree, p);
            assert(j < cs@.len());
            let ghost e0 = editor@;
            let ghost cv = cs@;
            let ghost nextp = match ws_at(&t0, cv, j + 1) {
                Some(w) => match ws_after_removal(t0.token_texts@[w as int]@) {
                    Some(rest) => ws_edit(cv[j + 1], rest, t0.nt()),
                    None => (Seq::<Seq<char>>::empty(), Seq::<ChangeView>::empty()),
                },
                None => (Seq::<Seq<char>>::empty(), Seq::<ChangeView>::empty()),
            };
            // whitespace that follows
            let mut next_rest: Option<(Elem, Vec<char>)> = None;
            let cl = cs.len();
            if j + 1 < cl {
                if let Elem::Token(w) = cs[j + 1] {
                    if tree.token_kinds[w] == SyntaxKind::WHITESPACE {
                        let text = &tree.token_texts[w];
                        let tl = text.len();
                        if let Some(q) = find_nl(text) {
                            let rest = sub_chars(text, q + 1, tl);
                            assert(rest@ =~= text@.skip(q + 1));
                            next_rest = Some((cs[j + 1], rest));
                        }
                    }
                }
            }
            assert(match next_rest {
                Some((e, r)) => nextp == ws_edit(e, r@, t0.nt()),
                None => nextp == (Seq::<Seq<char>>::empty(), Seq::<ChangeView>::empty()),
            });
            match next_rest {
                Some((e, rest)) => stage_ws_edit(editor, tree, e, rest),
                None => {
                    proof {
                        lemma_no_ws(tree);
                    }
                },
            }
            let ghost t1 = *tree;
            assert(adds_tokens(&t1, &t0, ws_kinds(nextp.0.len()), nextp.0));
            assert(editor@ == e0 + nextp.1);
            let ghost prevp = match ws_at(&t0, cv, j - 1) {
                Some(w) => ws_edit(cv[j - 1], ws_before_removal(t0.token_texts@[w as int]@), t0.nt() + nextp.0.len()),
                None => (Seq::<Seq<char>>::empty(), Seq::<ChangeView>::empty()),
            };
            // whitespace that precedes
            let mut prev_rest: Option<(Elem, Vec<char>)> = None;
            if j > 0 {
                if let Elem::Token(w) = cs[j - 1] {
                    assert(t0.has(cv[j - 1]));
                    assert(tree.token_kinds@[w as int] == t0.token_kinds@[w as int]);
                    if tree.token_kinds[w] == SyntaxKind::WHITESPACE {
                        assert(tree.token_texts@.take(t0.nt() as int)[w as int] == tree.token_texts@[w as int]);
                        let text = &tree.token_texts[w];
                        let tl = text.len();
                        let end = match rfind_nl(text) {
                            Some(q) => q + 1,
                            None => 0,
                        };
                        let rest = sub_chars(text, 0, end);
                        assert(rest@ =~= ws_before_removal(text@));
                        prev_rest = Some((cs[j - 1], rest));
                    }
                }
            }
            assert(match prev_rest {
                Some((e, r)) => prevp == ws_edit(e, r@, t1.nt()),
                None => prevp == (Seq::<Seq<char>>::empty(), Seq::<ChangeView>::empty()),
            });
            match prev_rest {
                Some((e, rest)) => stage_ws_edit(editor, tree, e, rest),
                None => {
                    proof {
                        lemma_no_ws(tree);
                    }
                },
            }
            editor.delete(Elem::Node(u));
            proof {
                lemma_adds_tokens_trans(tree, &t1, &t0, ws_kinds(nextp.0.len()), nextp.0, ws_kinds(prevp.0.len()), prevp.0);
                assert(ws_kinds(nextp.0.len()) + ws_kinds(prevp.0.len()) =~= ws_kinds((nextp.0 + prevp.0).len()));
                assert(plan.0 == nextp.0 + prevp.0);
                assert(plan.1 == nextp.1 + prevp.1 + seq![ChangeView::Delete(Elem::Node(u))]);
                assert(final(editor)@ =~= old(editor)@ + plan.1);
            }
        },
    }
}

proof fn lemma_no_ws(t: &Tree)
    requires
        t.wf(),
    ensures
        adds_tokens(t, t, ws_kinds(0), Seq::empty()),
{
    assert(t.token_kinds@ + ws_kinds(0) =~= t.token_kinds@);
    assert(t.token_texts@.take(t.nt() as int) =~= t.token_texts@);
}

fn find_last_node(tree: &Tree, cs: &Vec<Elem>, k: SyntaxKind, below: usize) -> (r: Option<usize>)
    requires
        tree.wf(),
        below <= cs@.len(),
        forall|j: int| 0 <= j < cs@.len() ==> tree.has(#[trigger] cs@[j]),
    ensures
        match last_node_before(tree, cs@, k, below as int) {
            Some(i) => r matches Some(a) && a as int == i && 0 <= i < below,
            None => r is None,
        },
{
    proof {
        lemma_last_node(tree, cs@, k, below as int);
    }
    let mut j: usize = below;
    while j > 0
        invariant
            j <= below <= cs@.len(),
            tree.wf(),
            forall|i: int| 0 <= i < cs@.len() ==> tree.has(#[trigger] cs@[i]),
            last_node_before(tree, cs@, k, below as int) == last_node_before(tree, cs@, k, j as int),
        decreases j,
    {
        let e = cs[j - 1];
        if let Elem::Node(_) = e {
            if tree.kind_of(e) == k {
                return Some(j - 1);
            }
        }
        j = j - 1;
    }
    None
}

/// Stages the removal of clause `c` of a grouped import, with the
/// separator that binds it to a neighbouring clause: where a clause follows
/// it, every element between the two; else, where one precedes it, every
/// element between those two, nearest first; then the clause itself.
pub fn remove_use_tree(editor: &mut SyntaxEditor, tree: &Tree, c: usize)
    requires
        tree.wf(),
    ensures
        final(editor)@ == old(editor)@ + use_tree_removal_plan(tree, c),
{
    let ghost plan = use_tree_removal_plan(tree, c);
    match find_slot(&tree.node_children, Elem::Node(c)) {
        None => {
            editor.delete(Elem::Node(c));
        },
        Some((p, j)) => {
            proof {
                crate::editor::lemma_slot(tree.children(), Elem::Node(c));
                let sl = slot_of(tree.children(), Elem::Node(c))->0;
                assert(sl.0 == p && sl.1 == j);
            }
            let cs = tree.children_of(p);
            children_in_tree(tree, p);
            assert(j < cs@.len());
            let ghost e0 = editor@;
            let ghost cv = cs@;
            let ghost seps = match first_with(tree, cv, SyntaxKind::USE_TREE, true, j + 1) {
                Some(k) => Seq::new((k - j - 1) as nat, |i: int| ChangeView::Delete(cv[j + 1 + i])),
                None => match last_node_before(tree, cv, SyntaxKind::USE_TREE, j as int) {
                    Some(k) => Seq::new((j - k - 1) as nat, |i: int| ChangeView::Delete(cv[j - 1 - i])),
                    None => Seq::empty(),
                },
            };
            match find_with(tree, &cs, SyntaxKind::USE_TREE, true, j + 1) {
                Some(k) => {
                    let mut i: usize = j + 1;
                    while i < k
                        invariant
                            j + 1 <= i <= k,
                            k < cs@.len(),
                            cv == cs@,
                            editor@ == e0 + Seq::new((i - j - 1) as nat, |x: int| ChangeView::Delete(cv[j + 1 + x])),
                        decreases k - i,
                    {
                        editor.delete(cs[i]);
                        i = i + 1;
                        assert(editor@ =~= e0 + Seq::new((i - j - 1) as nat, |x: int| ChangeView::Delete(cv[j + 1 + x])));
                    }
                },
                None => {
                    match find_last_node(tree, &cs, SyntaxKind::USE_TREE, j) {
                        Some(k) => {
                            let mut i: usize = j;
                            while i > k + 1
                                invariant
                                    k + 1 <= i <= j < cs@.len(),
                                    cv == cs@,
                                    editor@ == e0 + Seq::new((j - i) as nat, |x: int| ChangeView::Delete(cv[j - 1 - x])),
                                decreases i,
                            {
                                editor.delete(cs[i - 1]);
                                i = i - 1;
                                assert(editor@ =~= e0 + Seq::new((j - i) as nat, |x: int| ChangeView::Delete(cv[j - 1 - x])));
                            }
                        },
                        None => {
                            assert(editor@ =~= e0 + Seq::<ChangeView>::empty());
                        },
                    }
                },
            }
            assert(editor@ == e0 + seps);
            editor.delete(Elem::Node(c));
            assert(final(editor)@ =~= old(editor)@ + plan);
        },
    }
}

/// An import declaration, by its node.
pub struct Use {
    pub node: usize,
}

/// One clause of a grouped import, by its node.
pub struct UseTree {
    pub node: usize,
}

/// Something that can stage its own removal from a tree.
pub trait Removable {
    /// The texts of the whitespace tokens that the removal adds to `t`, in
    /// order, and the edits it stages.
    spec fn removal_plan(&self, t: &Tree) -> (Seq<Seq<char>>, Seq<ChangeView>);

    fn remove(&self, editor: &mut SyntaxEditor, tree: &mut Tree)
        requires
            old(tree).wf(),
            room(old(tree), 2),
        ensures
            adds_tokens(
                final(tree),
                old(tree),
                ws_kinds(self.removal_plan(old(tree)).0.len()),
                self.removal_plan(old(tree)).0,
            ),
            final(editor)@ == old(editor)@ + self.removal_plan(old(tree)).1,
    ;
}

impl Removable for Use {
    open spec fn removal_plan(&self, t: &Tree) -> (Seq<Seq<char>>, Seq<ChangeView>) {
        use_removal_plan(t, self.node, t.nt())
    }

    /// Removes the declaration with the whitespace around it, as
    /// `remove_use` does.
    fn remove(&self, editor: &mut SyntaxEditor, tree: &mut Tree) {
        remove_use(editor, tree, self.node);
    }
}

impl Removable for UseTree {
    open spec fn removal_plan(&self, t: &Tree) -> (Seq<Seq<char>>, Seq<ChangeView>) {
        (Seq::empty(), use_tree_removal_plan(t, self.node))
    }

    /// Removes the clause with its separator, as `remove_use_tree` does; it
    /// adds no token.
    fn remove(&self, editor: &mut SyntaxEditor, tree: &mut Tree) {
        remove_use_tree(editor, tree, self.node);
        proof {
            lemma_no_ws(tree);
        }
    }
}

} // verus!
