//! An arena of syntax nodes and tokens. A node has a kind and an ordered list
//! of children; a token has a kind and its text.
use vstd::prelude::*;

verus! {

#[derive(Clone, Copy, PartialEq, Eq, Structural, Debug)]
#[allow(non_camel_case_types)]
pub enum SyntaxKind {
    // tokens
    IDENT,
    WHITESPACE,
    COMMA,
    COLON,
    COLON2,
    SEMICOLON,
    DOT,
    EQ,
    AMP,
    L_ANGLE,
    R_ANGLE,
    L_PAREN,
    R_PAREN,
    L_CURLY,
    R_CURLY,
    L_BRACK,
    R_BRACK,
    PLUS,
    MINUS,
    STAR,
    SLASH,
    EQ2,
    NEQ,
    AMP2,
    PIPE2,
    FN_KW,
    LET_KW,
    MUT_KW,
    REF_KW,
    USE_KW,
    // nodes
    SOURCE_FILE,
    NAME,
    PATH,
    PATH_TYPE,
    TYPE_PARAM,
    LIFETIME_PARAM,
    CONST_PARAM,
    TYPE_BOUND_LIST,
    GENERIC_PARAM_LIST,
    GENERIC_ARG_LIST,
    TYPE_ARG,
    IDENT_PAT,
    BLOCK_EXPR,
    STMT_LIST,
    EXPR_STMT,
    BIN_EXPR,
    PATH_EXPR,
    REF_EXPR,
    LET_STMT,
    TOKEN_TREE,
    FN,
    PARAM_LIST,
    USE,
    USE_TREE,
    USE_TREE_LIST,
}

/// The text that a token of kind `k` always has, where it has a fixed one.
pub open spec fn fixed_text(k: SyntaxKind) -> Option<Seq<char>> {
    match k {
        SyntaxKind::WHITESPACE => Some(seq![' ']),
        SyntaxKind::COMMA => Some(seq![',']),
        SyntaxKind::COLON => Some(seq![':']),
        SyntaxKind::COLON2 => Some(seq![':', ':']),
        SyntaxKind::SEMICOLON => Some(seq![';']),
        SyntaxKind::DOT => Some(seq!['.']),
        SyntaxKind::EQ => Some(seq!['=']),
        SyntaxKind::AMP => Some(seq!['&']),
        SyntaxKind::L_ANGLE => Some(seq!['<']),
        SyntaxKind::R_ANGLE => Some(seq!['>']),
        SyntaxKind::L_PAREN => Some(seq!['(']),
        SyntaxKind::R_PAREN => Some(seq![')']),
        SyntaxKind::L_CURLY => Some(seq!['{']),
        SyntaxKind::R_CURLY => Some(seq!['}']),
        SyntaxKind::L_BRACK => Some(seq!['[']),
        SyntaxKind::R_BRACK => Some(seq![']']),
        SyntaxKind::PLUS => Some(seq!['+']),
        SyntaxKind::MINUS => Some(seq!['-']),
        SyntaxKind::STAR => Some(seq!['*']),
        SyntaxKind::SLASH => Some(seq!['/']),
        SyntaxKind::EQ2 => Some(seq!['=', '=']),
        SyntaxKind::NEQ => Some(seq!['!', '=']),
        SyntaxKind::AMP2 => Some(seq!['&', '&']),
        SyntaxKind::PIPE2 => Some(seq!['|', '|']),
        SyntaxKind::FN_KW => Some(seq!['f', 'u', 'n', 'c', 't', 'i', 'o', 'n']),
        SyntaxKind::LET_KW => Some(seq!['l', 'e', 't']),
        SyntaxKind::MUT_KW => Some(seq!['m', 'u', 't']),
        SyntaxKind::REF_KW => Some(seq!['r', 'e', 'f']),
        SyntaxKind::USE_KW => Some(seq!['i', 'm', 'p', 'o', 'r', 't']),
        _ => None,
    }
}

/// The fixed text of a token kind, if it has one.
pub fn kind_text(k: SyntaxKind) -> (r: Option<Vec<char>>)
    ensures
        r is Some <==> fixed_text(k) is Some,
        r is Some ==> r->0@ == fixed_text(k)->0,
{
    match k {
        SyntaxKind::WHITESPACE => Some(vec![' ']),
        SyntaxKind::COMMA => Some(vec![',']),
        SyntaxKind::COLON => Some(vec![':']),
        SyntaxKind::COLON2 => Some(vec![':', ':']),
        SyntaxKind::SEMICOLON => Some(vec![';']),
        SyntaxKind::DOT => Some(vec!['.']),
        SyntaxKind::EQ => Some(vec!['=']),
        SyntaxKind::AMP => Some(vec!['&']),
        SyntaxKind::L_ANGLE => Some(vec!['<']),
        SyntaxKind::R_ANGLE => Some(vec!['>']),
        SyntaxKind::L_PAREN => Some(vec!['(']),
        SyntaxKind::R_PAREN => Some(vec![')']),
        SyntaxKind::L_CURLY => Some(vec!['{']),
        SyntaxKind::R_CURLY => Some(vec!['}']),
        SyntaxKind::L_BRACK => Some(vec!['[']),
        SyntaxKind::R_BRACK => Some(vec![']']),
        SyntaxKind::PLUS => Some(vec!['+']),
        SyntaxKind::MINUS => Some(vec!['-']),
        SyntaxKind::STAR => Some(vec!['*']),
        SyntaxKind::SLASH => Some(vec!['/']),
        SyntaxKind::EQ2 => Some(vec!['=', '=']),
        SyntaxKind::NEQ => Some(vec!['!', '=']),
        SyntaxKind::AMP2 => Some(vec!['&', '&']),
        SyntaxKind::PIPE2 => Some(vec!['|', '|']),
        SyntaxKind::FN_KW => Some(vec!['f', 'u', 'n', 'c', 't', 'i', 'o', 'n']),
        SyntaxKind::LET_KW => Some(vec!['l', 'e', 't']),
        SyntaxKind::MUT_KW => Some(vec!['m', 'u', 't']),
        SyntaxKind::REF_KW => Some(vec!['r', 'e', 'f']),
        SyntaxKind::USE_KW => Some(vec!['i', 'm', 'p', 'o', 'r', 't']),
        _ => None,
    }
}

/// A node or a token of a tree, by its index in the arena.
#[derive(Clone, Copy, PartialEq, Eq, Structural, Debug)]
pub enum Elem {
    Node(usize),
    Token(usize),
}

/// The arena. Node `i` has kind `node_kinds[i]` and children
/// `node_children[i]`; token `i` has kind `token_kinds[i]` and text
/// `token_texts[i]`.
pub struct Tree {
    pub node_kinds: Vec<SyntaxKind>,
    pub node_children: Vec<Vec<Elem>>,
    pub token_kinds: Vec<SyntaxKind>,
    pub token_texts: Vec<Vec<char>>,
}

/// The children lists of an arena as plain sequences.
pub open spec fn children_view(c: Seq<Vec<Elem>>) -> Seq<Seq<Elem>> {
    Seq::new(c.len(), |i: int| c[i]@)
}

/// An element that names an entry of an arena with `nn` nodes and `nt` tokens.
pub open spec fn elem_in(e: Elem, nn: nat, nt: nat) -> bool {
    match e {
        Elem::Node(i) => i < nn,
        Elem::Token(i) => i < nt,
    }
}

/// Every child of every node names an entry of the arena.
pub open spec fn children_in(ch: Seq<Seq<Elem>>, nn: nat, nt: nat) -> bool {
    forall|p: int, j: int|
        0 <= p < ch.len() && 0 <= j < ch[p].len() ==> elem_in(#[trigger] ch[p][j], nn, nt)
}

impl Tree {
    pub open spec fn nn(&self) -> nat {
        self.node_kinds@.len()
    }

    pub open spec fn nt(&self) -> nat {
        self.token_kinds@.len()
    }

    pub open spec fn children(&self) -> Seq<Seq<Elem>> {
        children_view(self.node_children@)
    }

    pub open spec fn has(&self, e: Elem) -> bool {
        elem_in(e, self.nn(), self.nt())
    }

    pub open spec fn kind(&self, e: Elem) -> SyntaxKind {
        match e {
            Elem::Node(i) => self.node_kinds@[i as int],
            Elem::Token(i) => self.token_kinds@[i as int],
        }
    }

    pub open spec fn is_node(&self, n: usize) -> bool {
        n < self.nn()
    }

    /// The arena's tables agree in length and every child is an entry.
    pub open spec fn wf(&self) -> bool {
        &&& self.node_children@.len() == self.nn()
        &&& self.token_texts@.len() == self.nt()
        &&& children_in(self.children(), self.nn(), self.nt())
    }

    /// `self` holds every entry of `old` unchanged, and possibly more.
    pub open spec fn extends(&self, old: &Tree) -> bool {
        &&& old.nn() <= self.nn()
        &&& old.nt() <= self.nt()
        &&& self.node_kinds@.take(old.nn() as int) == old.node_kinds@
        &&& self.children().take(old.nn() as int) == old.children()
        &&& self.token_kinds@.take(old.nt() as int) == old.token_kinds@
        &&& self.token_texts@.take(old.nt() as int) == old.token_texts@
    }

    /// `self` is `old` with one more token, of kind `k` and text `s`.
    pub open spec fn adds_token(&self, old: &Tree, k: SyntaxKind, s: Seq<char>) -> bool {
        &&& self.node_kinds@ == old.node_kinds@
        &&& self.children() == old.children()
        &&& self.token_kinds@ == old.token_kinds@.push(k)
        &&& self.token_texts@.len() == old.token_texts@.len() + 1
        &&& self.token_texts@.take(old.nt() as int) == old.token_texts@
        &&& self.token_texts@.last()@ == s
    }

    /// `self` is `old` with one more node, of kind `k` and children `cs`.
    pub open spec fn adds_node(&self, old: &Tree, k: SyntaxKind, cs: Seq<Elem>) -> bool {
        &&& self.node_kinds@ == old.node_kinds@.push(k)
        &&& self.children() == old.children().push(cs)
        &&& self.token_kinds@ == old.token_kinds@
        &&& self.token_texts@ == old.token_texts@
    }

    pub proof fn lemma_children_push(&self, old: &Tree, v: Vec<Elem>)
        requires
            self.node_children@ == old.node_children@.push(v),
        ensures
            self.children() == old.children().push(v@),
    {
        assert(self.children() =~= old.children().push(v@));
    }

    pub fn new() -> (t: Tree)
        ensures
            t.wf(),
            t.nn() == 0,
            t.nt() == 0,
    {
        let t = Tree {
            node_kinds: Vec::new(),
            node_children: Vec::new(),
            token_kinds: Vec::new(),
            token_texts: Vec::new(),
        };
        assert(t.children() =~= Seq::empty());
        t
    }

    /// Adds a token of kind `kind` with text `text`.
    pub fn new_token(&mut self, kind: SyntaxKind, text: Vec<char>) -> (e: Elem)
        requires
            old(self).wf(),
            old(self).nt() < usize::MAX,
        ensures
            final(self).wf(),
            final(self).adds_token(old(self), kind, text@),
            e == Elem::Token(old(self).nt() as usize),
    {
        let id = self.token_kinds.len();
        self.token_kinds.push(kind);
        self.token_texts.push(text);
        assert(self.token_texts@.take(old(self).nt() as int) =~= old(self).token_texts@);
        proof {
            let ch = self.children();
            assert forall|p: int, j: int| 0 <= p < ch.len() && 0 <= j < ch[p].len() implies
                elem_in(#[trigger] ch[p][j], self.nn(), self.nt()) by {
                assert(old(self).children()[p][j] == ch[p][j]);
            }
        }
        Elem::Token(id)
    }

    /// Adds a node of kind `kind` whose children are `children`.
    pub fn new_node(&mut self, kind: SyntaxKind, children: Vec<Elem>) -> (e: Elem)
        requires
            old(self).wf(),
            old(self).nn() < usize::MAX,
            forall|j: int| 0 <= j < children@.len() ==> old(self).has(#[trigger] children@[j]),
        ensures
            final(self).wf(),
            final(self).adds_node(old(self), kind, children@),
            e == Elem::Node(old(self).nn() as usize),
    {
        let id = self.node_kinds.len();
        let ghost cs = children@;
        self.node_kinds.push(kind);
        self.node_children.push(children);
        proof {
            self.lemma_children_push(old(self), self.node_children@.last());
            let ch = self.children();
            assert forall|p: int, j: int| 0 <= p < ch.len() && 0 <= j < ch[p].len() implies
                elem_in(#[trigger] ch[p][j], self.nn(), self.nt()) by {
                if p < old(self).nn() {
                    assert(old(self).children()[p][j] == ch[p][j]);
                } else {
                    assert(ch[p] == cs);
                }
            }
        }
        Elem::Node(id)
    }

    /// `self` and `old` agree on the entry `e` of `old`.
    pub open spec fn keeps(&self, old: &Tree, e: Elem) -> bool {
        match e {
            Elem::Node(i) => i < self.nn() && self.node_kinds@[i as int] == old.node_kinds@[i as int]
                && self.children()[i as int] == old.children()[i as int],
            Elem::Token(i) => i < self.nt() && self.token_kinds@[i as int]
                == old.token_kinds@[i as int] && self.token_texts@[i as int]@
                == old.token_texts@[i as int]@,
        }
    }

    pub proof fn lemma_extends_keeps(&self, old: &Tree, e: Elem)
        requires
            self.extends(old),
            self.wf(),
            old.wf(),
            old.has(e),
        ensures
            self.keeps(old, e),
    {
        match e {
            Elem::Node(i) => {
                assert(self.node_kinds@.take(old.nn() as int)[i as int] == self.node_kinds@[i as int]);
                assert(self.children().take(old.nn() as int)[i as int] == self.children()[i as int]);
            },
            Elem::Token(i) => {
                assert(self.token_kinds@.take(old.nt() as int)[i as int]
                    == self.token_kinds@[i as int]);
                assert(self.token_texts@.take(old.nt() as int)[i as int]
                    == self.token_texts@[i as int]);
            },
        }
    }

    pub proof fn lemma_extends_trans(&self, mid: &Tree, old: &Tree)
        requires
            self.wf(),
            mid.wf(),
            old.wf(),
            self.extends(mid),
            mid.extends(old),
        ensures
            self.extends(old),
    {
        assert(self.node_kinds@.take(old.nn() as int) =~= self.node_kinds@.take(
            mid.nn() as int,
        ).take(old.nn() as int));
        assert(self.children().take(old.nn() as int) =~= self.children().take(
            mid.nn() as int,
        ).take(old.nn() as int));
        assert(self.token_kinds@.take(old.nt() as int) =~= self.token_kinds@.take(
            mid.nt() as int,
        ).take(old.nt() as int));
        assert(self.token_texts@.take(old.nt() as int) =~= self.token_texts@.take(
            mid.nt() as int,
        ).take(old.nt() as int));
    }

    pub proof fn lemma_adds_extends(&self, old: &Tree)
        requires
            old.wf(),
            self.wf(),
            (exists|k: SyntaxKind, s: Seq<char>| self.adds_token(old, k, s)) || (exists|
                k: SyntaxKind,
                cs: Seq<Elem>,
            | self.adds_node(old, k, cs)),
        ensures
            self.extends(old),
    {
        assert(self.node_kinds@.take(old.nn() as int) =~= old.node_kinds@);
        assert(self.children().take(old.nn() as int) =~= old.children());
        assert(self.token_kinds@.take(old.nt() as int) =~= old.token_kinds@);
        assert(self.token_texts@.take(old.nt() as int) =~= old.token_texts@);
    }

    pub proof fn lemma_extends_refl(&self)
        requires
            self.wf(),
        ensures
            self.extends(self),
    {
        assert(self.node_kinds@.take(self.nn() as int) =~= self.node_kinds@);
        assert(self.children().take(self.nn() as int) =~= self.children());
        assert(self.token_kinds@.take(self.nt() as int) =~= self.token_kinds@);
        assert(self.token_texts@.take(self.nt() as int) =~= self.token_texts@);
    }

    /// A copy of the children list of node `n`.
    pub fn children_of(&self, n: usize) -> (r: Vec<Elem>)
        requires
            self.wf(),
            self.is_node(n),
        ensures
            r@ == self.children()[n as int],
    {
        let row = &self.node_children[n];
        let mut r: Vec<Elem> = Vec::new();
        let mut i: usize = 0;
        while i < row.len()
            invariant
                i <= row@.len(),
                r@ == row@.take(i as int),
            decreases row@.len() - i,
        {
            r.push(row[i]);
            i = i + 1;
            assert(r@ =~= row@.take(i as int));
        }
        assert(row@.take(i as int) =~= row@);
        r
    }

    /// A copy of the text of token `i`.
    pub fn text_of(&self, i: usize) -> (r: Vec<char>)
        requires
            self.wf(),
            i < self.nt(),
        ensures
            r@ == self.token_texts@[i as int]@,
    {
        let src = &self.token_texts[i];
        let mut r: Vec<char> = Vec::new();
        let mut k: usize = 0;
        while k < src.len()
            invariant
                k <= src@.len(),
                r@ == src@.take(k as int),
            decreases src@.len() - k,
        {
            r.push(src[k]);
            k = k + 1;
            assert(r@ =~= src@.take(k as int));
        }
        assert(src@.take(k as int) =~= src@);
        r
    }

    /// The kind of an element of the arena.
    pub fn kind_of(&self, e: Elem) -> (k: SyntaxKind)
        requires
            self.wf(),
            self.has(e),
        ensures
            k == self.kind(e),
    {
        match e {
            Elem::Node(i) => self.node_kinds[i],
            Elem::Token(i) => self.token_kinds[i],
        }
    }
}

} // verus!
