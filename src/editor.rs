//! Staging a batch of edits against a tree and applying it in one pass.
use vstd::prelude::*;
use crate::tree::{children_in, children_view, elem_in, Elem, Tree};


verus! {

/// Where an insertion goes, resolved when the batch is applied.
#[derive(Clone, Copy, PartialEq, Eq, Structural, Debug)]
pub enum Position {
    Before(Elem),
    After(Elem),
    LastChildOf(usize),
}

impl Position {
    pub fn before(e: Elem) -> (r: Position)
        ensures
            r == Position::Before(e),
    {
        Position::Before(e)
    }

    pub fn after(e: Elem) -> (r: Position)
        ensures
            r == Position::After(e),
    {
        Position::After(e)
    }

    pub fn last_child_of(n: usize) -> (r: Position)
        ensures
            r == Position::LastChildOf(n),
    {
        Position::LastChildOf(n)
    }
}

/// One staged edit.
#[derive(Debug)]
pub enum Change {
    Insert(Position, Vec<Elem>),
    Delete(Elem),
    Replace(Elem, Vec<Elem>),
}

/// What a staged edit is, with its elements as a sequence.
pub enum ChangeView {
    Insert(Position, Seq<Elem>),
    Delete(Elem),
    Replace(Elem, Seq<Elem>),
}

impl View for Change {
    type V = ChangeView;

    open spec fn view(&self) -> ChangeView {
        match self {
            Change::Insert(p, es) => ChangeView::Insert(*p, es@),
            Change::Delete(t) => ChangeView::Delete(*t),
            Change::Replace(t, es) => ChangeView::Replace(*t, es@),
        }
    }
}

/// Why a batch could not be applied.
#[derive(Clone, Copy, PartialEq, Eq, Structural, Debug)]
pub enum EditError {
    /// An edit's target or anchor is not held by exactly one node, exactly
    /// once, or an edit inserts an element that is not in the tree.
    DanglingTarget,
    /// An edit removes an element that an earlier insertion of the batch is
    /// anchored at.
    Conflict,
}

/// The first index at or after `j` where `s` holds `e`.
pub open spec fn first_in(s: Seq<Elem>, e: Elem, j: int) -> Option<int>
    decreases s.len() - j,
{
    if j < 0 || j >= s.len() {
        None
    } else if s[j] == e {
        Some(j)
    } else {
        first_in(s, e, j + 1)
    }
}

/// The first node at or after `p` that has `e` as a child, with the index of
/// that child.
pub open spec fn parent_from(ch: Seq<Seq<Elem>>, e: Elem, p: int) -> Option<(int, int)>
    decreases ch.len() - p,
{
    if p < 0 || p >= ch.len() {
        None
    } else {
        match first_in(ch[p], e, 0) {
            Some(j) => Some((p, j)),
            None => parent_from(ch, e, p + 1),
        }
    }
}

/// The slot of `e` in the tree: its parent and its index there.
pub open spec fn slot_of(ch: Seq<Seq<Elem>>, e: Elem) -> Option<(int, int)> {
    parent_from(ch, e, 0)
}

/// The slot of `e` where exactly one node holds it, and holds it once;
/// `None` where no node does, or where `e` has more than one slot.
pub open spec fn unique_slot(ch: Seq<Seq<Elem>>, e: Elem) -> Option<(int, int)> {
    match slot_of(ch, e) {
        Some((p, j)) => if first_in(ch[p], e, j + 1) is None && parent_from(ch, e, p + 1) is None {
            Some((p, j))
        } else {
            None
        },
        None => None,
    }
}

/// `s` with its elements from `a` up to `b` replaced by `es`.
pub open spec fn splice(s: Seq<Elem>, a: int, b: int, es: Seq<Elem>) -> Seq<Elem> {
    s.take(a) + es + s.skip(b)
}

pub open spec fn all_in(es: Seq<Elem>, nn: nat, nt: nat) -> bool {
    forall|j: int| 0 <= j < es.len() ==> elem_in(#[trigger] es[j], nn, nt)
}

/// The children lists after one edit, or `None` where it cannot be made.
pub open spec fn apply_change(ch: Seq<Seq<Elem>>, nn: nat, nt: nat, c: ChangeView) -> Option<
    Seq<Seq<Elem>>,
> {
    match c {
        ChangeView::Insert(pos, es) => {
            if !all_in(es, nn, nt) {
                None
            } else {
                match pos {
                    Position::Before(t) => match unique_slot(ch, t) {
                        Some((p, j)) => Some(ch.update(p, splice(ch[p], j, j, es))),
                        None => None,
                    },
                    Position::After(t) => match unique_slot(ch, t) {
                        Some((p, j)) => Some(ch.update(p, splice(ch[p], j + 1, j + 1, es))),
                        None => None,
                    },
                    Position::LastChildOf(n) => if n < ch.len() {
                        Some(ch.update(n as int, ch[n as int] + es))
                    } else {
                        None
                    },
                }
            }
        },
        ChangeView::Delete(t) => match unique_slot(ch, t) {
            Some((p, j)) => Some(ch.update(p, splice(ch[p], j, j + 1, Seq::empty()))),
            None => None,
        },
        ChangeView::Replace(t, es) => {
            if !all_in(es, nn, nt) {
                None
            } else {
                match unique_slot(ch, t) {
                    Some((p, j)) => Some(ch.update(p, splice(ch[p], j, j + 1, es))),
                    None => None,
                }
            }
        },
    }
}

/// The element an insertion is anchored at, if it is anchored at one.
pub open spec fn anchor_of(c: ChangeView) -> Option<Elem> {
    match c {
        ChangeView::Insert(Position::Before(t), _) => Some(t),
        ChangeView::Insert(Position::After(t), _) => Some(t),
        _ => None,
    }
}

/// The element an edit removes, if it removes one.
pub open spec fn removed_by(c: ChangeView) -> Option<Elem> {
    match c {
        ChangeView::Delete(t) => Some(t),
        ChangeView::Replace(t, _) => Some(t),
        _ => None,
    }
}

/// Some edit of `cs` removes an element that an earlier insertion of `cs`
/// is anchored at.
pub open spec fn conflicts(cs: Seq<ChangeView>) -> bool {
    exists|i: int, j: int|
        0 <= i < j < cs.len() && #[trigger] anchor_of(cs[i]) is Some && #[trigger] removed_by(cs[j])
            == anchor_of(cs[i])
}

fn anchor(c: &Change) -> (r: Option<Elem>)
    ensures
        r == anchor_of(c@),
{
    match c {
        Change::Insert(Position::Before(t), _) => Some(*t),
        Change::Insert(Position::After(t), _) => Some(*t),
        _ => None,
    }
}

fn removed(c: &Change) -> (r: Option<Elem>)
    ensures
        r == removed_by(c@),
{
    match c {
        Change::Delete(t) => Some(*t),
        Change::Replace(t, _) => Some(*t),
        _ => None,
    }
}

/// The children lists after the edits `cs`, made in order, or `None` where
/// one of them cannot be made.
pub open spec fn apply_all(ch: Seq<Seq<Elem>>, nn: nat, nt: nat, cs: Seq<ChangeView>) -> Option<
    Seq<Seq<Elem>>,
>
    decreases cs.len(),
{
    if cs.len() == 0 {
        Some(ch)
    } else {
        match apply_all(ch, nn, nt, cs.drop_last()) {
            Some(c2) => apply_change(c2, nn, nt, cs.last()),
            None => None,
        }
    }
}

proof fn lemma_first_in(s: Seq<Elem>, e: Elem, j: int)
    requires
        0 <= j,
    ensures
        match first_in(s, e, j) {
            Some(k) => j <= k < s.len() && s[k] == e,
            None => forall|k: int| j <= k < s.len() ==> s[k] != e,
        },
    decreases s.len() - j,
{
    if j < s.len() && s[j] != e {
        lemma_first_in(s, e, j + 1);
    }
}

/// Where `e` has a slot, the slot holds `e`.
pub proof fn lemma_slot(ch: Seq<Seq<Elem>>, e: Elem)
    ensures
        slot_of(ch, e) matches Some((p, j)) ==> 0 <= p < ch.len() && 0 <= j < ch[p].len() && ch[p][j] == e,
{
    lemma_parent_from(ch, e, 0);
}

proof fn lemma_parent_from(ch: Seq<Seq<Elem>>, e: Elem, p: int)
    requires
        0 <= p,
    ensures
        match parent_from(ch, e, p) {
            Some((q, j)) => p <= q < ch.len() && 0 <= j < ch[q].len() && ch[q][j] == e,
            None => true,
        },
    decreases ch.len() - p,
{
    if p < ch.len() {
        lemma_first_in(ch[p], e, 0);
        lemma_parent_from(ch, e, p + 1);
    }
}

proof fn lemma_splice_in(s: Seq<Elem>, a: int, b: int, es: Seq<Elem>, nn: nat, nt: nat)
    requires
        0 <= a <= b <= s.len(),
        all_in(s, nn, nt),
        all_in(es, nn, nt),
    ensures
        all_in(splice(s, a, b, es), nn, nt),
{
    let r = splice(s, a, b, es);
    assert forall|j: int| 0 <= j < r.len() implies elem_in(#[trigger] r[j], nn, nt) by {
        if j < a {
            assert(r[j] == s[j]);
        } else if j < a + es.len() {
            assert(r[j] == es[j - a]);
        } else {
            assert(r[j] == s[j - a - es.len() + b]);
        }
    }
}

/// An edit keeps every child an entry of the arena.
proof fn lemma_apply_change_in(ch: Seq<Seq<Elem>>, nn: nat, nt: nat, c: ChangeView)
    requires
        children_in(ch, nn, nt),
    ensures
        apply_change(ch, nn, nt, c) matches Some(c2) ==> c2.len() == ch.len() && children_in(
            c2,
            nn,
            nt,
        ),
{
    if let Some(c2) = apply_change(ch, nn, nt, c) {
        let t = match c {
            ChangeView::Insert(Position::Before(t), _) => t,
            ChangeView::Insert(Position::After(t), _) => t,
            ChangeView::Insert(Position::LastChildOf(_), _) => Elem::Node(0),
            ChangeView::Delete(t) => t,
            ChangeView::Replace(t, _) => t,
        };
        lemma_parent_from(ch, t, 0);
        let es = match c {
            ChangeView::Insert(_, es) => es,
            ChangeView::Delete(_) => Seq::empty(),
            ChangeView::Replace(_, es) => es,
        };
        let slot = unique_slot(ch, t)->0;
        let q = match c {
            ChangeView::Insert(Position::LastChildOf(n), _) => n as int,
            _ => slot.0,
        };
        assert(all_in(ch[q], nn, nt)) by {
            assert forall|j: int| 0 <= j < ch[q].len() implies elem_in(#[trigger] ch[q][j], nn, nt) by {
                assert(elem_in(ch[q][j], nn, nt));
            }
        }
        match c {
            ChangeView::Insert(Position::LastChildOf(n), _) => {
                lemma_splice_in(ch[q], ch[q].len() as int, ch[q].len() as int, es, nn, nt);
                assert(ch[q] + es =~= splice(ch[q], ch[q].len() as int, ch[q].len() as int, es));
            },
            ChangeView::Insert(Position::Before(_), _) => {
                let j = slot.1;
                lemma_splice_in(ch[q], j, j, es, nn, nt);
            },
            ChangeView::Insert(Position::After(_), _) => {
                let j = slot.1;
                lemma_splice_in(ch[q], j + 1, j + 1, es, nn, nt);
            },
            _ => {
                let j = slot.1;
                lemma_splice_in(ch[q], j, j + 1, es, nn, nt);
            },
        }
        assert forall|p: int, j: int| 0 <= p < c2.len() && 0 <= j < c2[p].len() implies elem_in(
            #[trigger] c2[p][j],
            nn,
            nt,
        ) by {
            if p != q {
                assert(c2[p] == ch[p]);
            }
        }
    }
}

/// Applying the edits `cs` in order keeps every child an entry of the arena.
pub proof fn lemma_apply_all_in(ch: Seq<Seq<Elem>>, nn: nat, nt: nat, cs: Seq<ChangeView>)
    requires
        children_in(ch, nn, nt),
    ensures
        apply_all(ch, nn, nt, cs) matches Some(c2) ==> c2.len() == ch.len() && children_in(
            c2,
            nn,
            nt,
        ),
    decreases cs.len(),
{
    if cs.len() > 0 {
        lemma_apply_all_in(ch, nn, nt, cs.drop_last());
        if let Some(c1) = apply_all(ch, nn, nt, cs.drop_last()) {
            lemma_apply_change_in(c1, nn, nt, cs.last());
        }
    }
}

/// The slot of `e`: the first node, in arena order, that has `e` as a child,
/// and the first index of `e` in it.
pub fn find_slot(ch: &Vec<Vec<Elem>>, e: Elem) -> (r: Option<(usize, usize)>)
    ensures
        match slot_of(children_view(ch@), e) {
            Some((p, j)) => r matches Some((a, b)) && a as int == p && b as int == j,
            None => r is None,
        },
{
    find_slot_from(ch, e, 0)
}

/// The slot of `e` where exactly one node holds it, once.
pub fn find_unique_slot(ch: &Vec<Vec<Elem>>, e: Elem) -> (r: Option<(usize, usize)>)
    ensures
        match unique_slot(children_view(ch@), e) {
            Some((p, j)) => r matches Some((a, b)) && a as int == p && b as int == j,
            None => r is None,
        },
{
    let ghost cv = children_view(ch@);
    proof {
        lemma_parent_from(cv, e, 0);
    }
    match find_slot_from(ch, e, 0) {
        None => None,
        Some((p, j)) => {
            let cl = ch.len();
            assert(cv[p as int] == ch@[p as int]@);
            let rl = ch[p].len();
            assert(j < rl);
            if in_row_from(&ch[p], e, j + 1) {
                return None;
            }
            if find_slot_from(ch, e, p + 1).is_some() {
                return None;
            }
            Some((p, j))
        },
    }
}

/// Whether `row` holds `e` at or after index `from`.
fn in_row_from(row: &Vec<Elem>, e: Elem, from: usize) -> (r: bool)
    ensures
        r == first_in(row@, e, from as int) is Some,
{
    let mut j: usize = from;
    while j < row.len()
        invariant
            from <= j,
            first_in(row@, e, from as int) == first_in(row@, e, j as int),
        decreases row@.len() - j,
    {
        if row[j] == e {
            return true;
        }
        j = j + 1;
    }
    false
}

/// The first node at or after `from` that has `e` as a child, with the
/// first index of `e` in it.
fn find_slot_from(ch: &Vec<Vec<Elem>>, e: Elem, from: usize) -> (r: Option<(usize, usize)>)
    ensures
        match parent_from(children_view(ch@), e, from as int) {
            Some((p, j)) => r matches Some((a, b)) && a as int == p && b as int == j,
            None => r is None,
        },
{
    let ghost cv = children_view(ch@);
    let mut p: usize = from;
    while p < ch.len()
        invariant
            from <= p,
            cv == children_view(ch@),
            parent_from(cv, e, from as int) == parent_from(cv, e, p as int),
        decreases ch@.len() - p,
    {
        let row = &ch[p];
        assert(row@ == cv[p as int]);
        let mut j: usize = 0;
        while j < row.len()
            invariant
                j <= row@.len(),
                p < ch@.len(),
                row@ == cv[p as int],
                cv == children_view(ch@),
                parent_from(cv, e, from as int) == parent_from(cv, e, p as int),
                first_in(row@, e, 0) == first_in(row@, e, j as int),
            decreases row@.len() - j,
        {
            if row[j] == e {
                assert(first_in(row@, e, j as int) == Some(j as int));
                assert(parent_from(cv, e, p as int) == Some((p as int, j as int)));
                return Some((p, j));
            }
            j = j + 1;
        }
        p = p + 1;
    }
    None
}

/// `s` with its elements from `a` up to `b` replaced by `es`.
fn splice_vec(s: &Vec<Elem>, a: usize, b: usize, es: &Vec<Elem>) -> (r: Vec<Elem>)
    requires
        a <= b <= s@.len(),
    ensures
        r@ == splice(s@, a as int, b as int, es@),
{
    let mut r: Vec<Elem> = Vec::new();
    let mut i: usize = 0;
    while i < a
        invariant
            i <= a <= b <= s@.len(),
            r@ == s@.take(i as int),
        decreases a - i,
    {
        r.push(s[i]);
        i = i + 1;
        assert(r@ =~= s@.take(i as int));
    }
    let mut k: usize = 0;
    while k < es.len()
        invariant
            k <= es@.len(),
            r@ == s@.take(a as int) + es@.take(k as int),
        decreases es@.len() - k,
    {
        r.push(es[k]);
        k = k + 1;
        assert(r@ =~= s@.take(a as int) + es@.take(k as int));
    }
    assert(es@.take(es@.len() as int) =~= es@);
    let mut i: usize = b;
    while i < s.len()
        invariant
            b <= i <= s@.len(),
            r@ == s@.take(a as int) + es@ + s@.subrange(b as int, i as int),
        decreases s@.len() - i,
    {
        r.push(s[i]);
        i = i + 1;
        assert(r@ =~= s@.take(a as int) + es@ + s@.subrange(b as int, i as int));
    }
    assert(s@.subrange(b as int, s@.len() as int) =~= s@.skip(b as int));
    r
}

fn check_all_in(es: &Vec<Elem>, nn: usize, nt: usize) -> (r: bool)
    ensures
        r == all_in(es@, nn as nat, nt as nat),
{
    let mut j: usize = 0;
    while j < es.len()
        invariant
            j <= es@.len(),
            forall|k: int| 0 <= k < j ==> elem_in(#[trigger] es@[k], nn as nat, nt as nat),
        decreases es@.len() - j,
    {
        let ok = match es[j] {
            Elem::Node(i) => i < nn,
            Elem::Token(i) => i < nt,
        };
        if !ok {
            return false;
        }
        j = j + 1;
    }
    true
}

/// Makes one edit on the children lists `ch`; false where it cannot be made,
/// and then `ch` is left as it was.
fn apply_one(ch: &mut Vec<Vec<Elem>>, nn: usize, nt: usize, c: &Change) -> (ok: bool)
    ensures
        match apply_change(children_view(old(ch)@), nn as nat, nt as nat, c@) {
            Some(c2) => ok && children_view(final(ch)@) == c2,
            None => !ok && final(ch)@ == old(ch)@,
        },
{
    let ghost cv = children_view(ch@);
    let (target, es, after, cut): (Elem, Option<&Vec<Elem>>, bool, bool) = match c {
        Change::Insert(Position::LastChildOf(n), es) => {
            let n = *n;
            if !check_all_in(es, nn, nt) || n >= ch.len() {
                return false;
            }
            let len = ch[n].len();
            let row = splice_vec(&ch[n], len, len, es);
            proof {
                assert(cv[n as int] == ch@[n as int]@);
                assert(cv[n as int].take(len as int) =~= cv[n as int]);
                assert(cv[n as int].skip(len as int) =~= Seq::<Elem>::empty());
                assert(row@ =~= cv[n as int] + es@);
            }
            ch[n] = row;
            assert(children_view(ch@) =~= cv.update(n as int, cv[n as int] + es@));
            return true;
        },
        Change::Insert(Position::Before(t), es) => (*t, Some(es), false, false),
        Change::Insert(Position::After(t), es) => (*t, Some(es), true, false),
        Change::Delete(t) => (*t, None, false, true),
        Change::Replace(t, es) => (*t, Some(es), false, true),
    };
    let empty: Vec<Elem> = Vec::new();
    let es: &Vec<Elem> = match es {
        Some(es) => es,
        None => &empty,
    };
    if !check_all_in(es, nn, nt) {
        return false;
    }
    match find_unique_slot(ch, target) {
        None => false,
        Some((p, j)) => {
            proof {
                lemma_parent_from(cv, target, 0);
                assert(cv == children_view(ch@));
                assert(unique_slot(cv, target) is Some);
                let sl = unique_slot(cv, target)->0;
                assert(sl.0 == p && sl.1 == j);
            }
            assert(cv[p as int] == ch@[p as int]@);
            let rowlen = ch[p].len();
            assert(j < rowlen);
            let a: usize = if after { j + 1 } else { j };
            let b: usize = if cut { j + 1 } else { a };
            let row = splice_vec(&ch[p], a, b, es);
            ch[p] = row;
            assert(children_view(ch@) =~= cv.update(p as int, row@));
            true
        },
    }
}

/// A batch of edits staged against one tree, applied in staging order.
pub struct SyntaxEditor {
    pub changes: Vec<Change>,
}

impl View for SyntaxEditor {
    type V = Seq<ChangeView>;

    open spec fn view(&self) -> Seq<ChangeView> {
        Seq::new(self.changes@.len(), |i: int| self.changes@[i]@)
    }
}

impl SyntaxEditor {
    pub fn new() -> (r: SyntaxEditor)
        ensures
            r@ == Seq::<ChangeView>::empty(),
    {
        let r = SyntaxEditor { changes: Vec::new() };
        assert(r@ =~= Seq::<ChangeView>::empty());
        r
    }

    fn stage(&mut self, c: Change)
        ensures
            final(self)@ == old(self)@.push(c@),
    {
        self.changes.push(c);
        assert(final(self)@ =~= old(self)@.push(c@));
    }

    /// Stages the insertion of `e` at `pos`.
    pub fn insert(&mut self, pos: Position, e: Elem)
        ensures
            final(self)@ == old(self)@.push(ChangeView::Insert(pos, seq![e])),
    {
        let es = vec![e];
        assert(es@ =~= seq![e]);
        self.stage(Change::Insert(pos, es));
    }

    /// Stages the insertion of the run `es`, in its order, at `pos`.
    pub fn insert_all(&mut self, pos: Position, es: Vec<Elem>)
        ensures
            final(self)@ == old(self)@.push(ChangeView::Insert(pos, es@)),
    {
        self.stage(Change::Insert(pos, es));
    }

    /// Stages the removal of `target` from its parent.
    pub fn delete(&mut self, target: Elem)
        ensures
            final(self)@ == old(self)@.push(ChangeView::Delete(target)),
    {
        self.stage(Change::Delete(target));
    }

    /// Stages the replacement of `target` by `e`.
    pub fn replace(&mut self, target: Elem, e: Elem)
        ensures
            final(self)@ == old(self)@.push(ChangeView::Replace(target, seq![e])),
    {
        let es = vec![e];
        assert(es@ =~= seq![e]);
        self.stage(Change::Replace(target, es));
    }

    /// Stages the replacement of `target` by the run `es`.
    pub fn replace_all(&mut self, target: Elem, es: Vec<Elem>)
        ensures
            final(self)@ == old(self)@.push(ChangeView::Replace(target, es@)),
    {
        self.stage(Change::Replace(target, es));
    }

    /// Whether an edit of the batch removes an element that an earlier
    /// insertion of the batch is anchored at.
    pub fn has_conflict(&self) -> (r: bool)
        ensures
            r == conflicts(self@),
    {
        let n = self.changes.len();
        let mut j: usize = 0;
        while j < n
            invariant
                j <= n == self@.len(),
                forall|a: int, b: int|
                    0 <= a < b < j ==> !(anchor_of(self@[a]) is Some && removed_by(self@[b]) == anchor_of(
                        self@[a],
                    )),
            decreases n - j,
        {
            if let Some(t) = removed(&self.changes[j]) {
                let mut i: usize = 0;
                while i < j
                    invariant
                        i <= j < n == self@.len(),
                        removed_by(self@[j as int]) == Some(t),
                        forall|a: int| 0 <= a < i ==> anchor_of(self@[a]) != Some(t),
                    decreases j - i,
                {
                    if let Some(u) = anchor(&self.changes[i]) {
                        if u == t {
                            assert(anchor_of(self@[i as int]) is Some && removed_by(self@[j as int])
                                == anchor_of(self@[i as int]));
                            return true;
                        }
                    }
                    i = i + 1;
                }
            }
            j = j + 1;
        }
        false
    }

    /// Applies the staged edits to `tree`, in staging order. Where the batch
    /// conflicts, or one of its edits cannot be made, nothing is changed and
    /// the error is returned.
    pub fn apply(&self, tree: &mut Tree) -> (r: Result<(), EditError>)
        requires
            old(tree).wf(),
        ensures
            final(tree).wf(),
            final(tree).node_kinds == old(tree).node_kinds,
            final(tree).token_kinds == old(tree).token_kinds,
            final(tree).token_texts == old(tree).token_texts,
            conflicts(self@) ==> r == Err::<(), EditError>(EditError::Conflict)
                && final(tree).children() == old(tree).children(),
            !conflicts(self@) ==> match apply_all(old(tree).children(), old(tree).nn(), old(tree).nt(), self@) {
                Some(ch) => r is Ok && final(tree).children() == ch,
                None => r == Err::<(), EditError>(EditError::DanglingTarget)
                    && final(tree).children() == old(tree).children(),
            },
    {
        if self.has_conflict() {
            return Err(EditError::Conflict);
        }
        let nn = tree.node_kinds.len();
        let nt = tree.token_kinds.len();
        let mut work: Vec<Vec<Elem>> = Vec::new();
        let mut p: usize = 0;
        while p < tree.node_children.len()
            invariant
                p <= tree.node_children@.len(),
                !conflicts(self@),
                tree.wf(),
                children_view(work@) == tree.children().take(p as int),
            decreases tree.node_children@.len() - p,
        {
            let row = splice_vec(&tree.node_children[p], 0, 0, &Vec::new());
            assert(row@ =~= tree.node_children@[p as int]@);
            let ghost w0 = work@;
            work.push(row);
            assert(children_view(work@) =~= children_view(w0).push(row@));
            p = p + 1;
            assert(children_view(work@) =~= tree.children().take(p as int));
        }
        assert(tree.children().take(p as int) =~= tree.children());
        let mut i: usize = 0;
        while i < self.changes.len()
            invariant
                i <= self@.len(),
                !conflicts(self@),
                tree.wf(),
                nn == tree.nn(),
                nt == tree.nt(),
                apply_all(tree.children(), nn as nat, nt as nat, self@.take(i as int)) == Some(
                    children_view(work@),
                ),
            decreases self@.len() - i,
        {
            assert(self@.take(i as int + 1).drop_last() =~= self@.take(i as int));
            if !apply_one(&mut work, nn, nt, &self.changes[i]) {
                proof {
                    lemma_apply_all_none(
                        tree.children(),
                        nn as nat,
                        nt as nat,
                        self@,
                        i as int + 1,
                    );
                }
                return Err(EditError::DanglingTarget);
            }
            i = i + 1;
        }
        assert(self@.take(i as int) =~= self@);
        proof {
            lemma_apply_all_in(tree.children(), nn as nat, nt as nat, self@);
        }
        tree.node_children = work;
        Ok(())
    }
}

/// Where the first `k` edits cannot all be made, the whole batch cannot be.
proof fn lemma_apply_all_none(ch: Seq<Seq<Elem>>, nn: nat, nt: nat, cs: Seq<ChangeView>, k: int)
    requires
        0 <= k <= cs.len(),
        apply_all(ch, nn, nt, cs.take(k)) is None,
    ensures
        apply_all(ch, nn, nt, cs) is None,
    decreases cs.len() - k,
{
    if k < cs.len() {
        assert(cs.take(k + 1).drop_last() =~= cs.take(k));
        lemma_apply_all_none(ch, nn, nt, cs, k + 1);
    } else {
        assert(cs.take(k) =~= cs);
    }
}

/// An empty batch has no conflict and leaves every children list as it was;
/// with the contract of `apply`, the tree after an empty batch is the tree
/// before it.
pub proof fn lemma_empty_batch_unchanged(ch: Seq<Seq<Elem>>, nn: nat, nt: nat)
    ensures
        !conflicts(Seq::empty()),
        apply_all(ch, nn, nt, Seq::empty()) == Some(ch),
{
}

/// An insertion of a run puts the run's elements side by side, in their order,
/// at the slot that its position resolves to, and keeps the anchor next to it.
pub proof fn lemma_insert_all_contiguous(
    ch: Seq<Seq<Elem>>,
    nn: nat,
    nt: nat,
    pos: Position,
    es: Seq<Elem>,
)
    requires
        apply_change(ch, nn, nt, ChangeView::Insert(pos, es)) is Some,
    ensures
        ({
            let c2 = apply_change(ch, nn, nt, ChangeView::Insert(pos, es))->0;
            match pos {
                Position::Before(t) => {
                    let (p, j) = unique_slot(ch, t)->0;
                    &&& c2[p].subrange(j, j + es.len()) == es
                    &&& c2[p][j + es.len()] == t
                },
                Position::After(t) => {
                    let (p, j) = unique_slot(ch, t)->0;
                    &&& c2[p][j] == t
                    &&& c2[p].subrange(j + 1, j + 1 + es.len()) == es
                },
                Position::LastChildOf(n) => {
                    &&& c2[n as int].take(ch[n as int].len() as int) == ch[n as int]
                    &&& c2[n as int].skip(ch[n as int].len() as int) == es
                },
            }
        }),
{
    let c2 = apply_change(ch, nn, nt, ChangeView::Insert(pos, es))->0;
    match pos {
        Position::Before(t) => {
            lemma_parent_from(ch, t, 0);
            let (p, j) = unique_slot(ch, t)->0;
            assert(c2[p].subrange(j, j + es.len()) =~= es);
            assert(c2[p][j + es.len()] == ch[p][j]);
        },
        Position::After(t) => {
            lemma_parent_from(ch, t, 0);
            let (p, j) = unique_slot(ch, t)->0;
            assert(c2[p][j] == ch[p][j]);
            assert(c2[p].subrange(j + 1, j + 1 + es.len()) =~= es);
        },
        Position::LastChildOf(n) => {
            assert(c2[n as int].take(ch[n as int].len() as int) =~= ch[n as int]);
            assert(c2[n as int].skip(ch[n as int].len() as int) =~= es);
        },
    }
}

} // verus!
