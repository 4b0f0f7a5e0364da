//! The undo log: a layer over a buffer that records every change it forwards,
//! merging runs of the same kind, and can revert and replay them.
use crate::text::{buffer_ok, Editable, Movement, Named, Saveable, MAX_CHARS};
use std::collections::VecDeque;
use vstd::prelude::*;

verus! {

/// An entry of the log.
#[derive(Clone, Debug, PartialEq, Eq)]
pub enum Action {
    /// Characters typed before the cursor, in typing order.
    Insert(Vec<char>),
    /// Characters inserted at the cursor without moving it, in insertion order.
    InsertForward(Vec<char>),
    /// Characters erased before the cursor, in text order.
    Delete(Vec<char>),
    /// Characters erased at the cursor, last erased first.
    DeleteForward(Vec<char>),
    /// A cursor displacement.
    Move(isize),
}

/// What an [`Action`] stands for.
pub enum Edit {
    Insert(Seq<char>),
    InsertForward(Seq<char>),
    Delete(Seq<char>),
    DeleteForward(Seq<char>),
    Move(int),
}

impl View for Action {
    type V = Edit;

    open spec fn view(&self) -> Edit {
        match self {
            Action::Insert(v) => Edit::Insert(v@),
            Action::InsertForward(v) => Edit::InsertForward(v@),
            Action::Delete(v) => Edit::Delete(v@),
            Action::DeleteForward(v) => Edit::DeleteForward(v@),
            Action::Move(d) => Edit::Move(*d as int),
        }
    }
}

/// `s` backwards.
pub open spec fn rev(s: Seq<char>) -> Seq<char>
    decreases s.len(),
{
    if s.len() == 0 {
        s
    } else {
        seq![s.last()] + rev(s.drop_last())
    }
}

/// The text and cursor an edit produces from text `s` and cursor `p`.
pub open spec fn apply_edit(e: Edit, s: Seq<char>, p: int) -> (Seq<char>, int) {
    match e {
        Edit::Insert(x) => (s.take(p) + x + s.skip(p), p + x.len()),
        Edit::InsertForward(x) => (s.take(p) + rev(x) + s.skip(p), p),
        Edit::Delete(x) => (s.take(p - x.len()) + s.skip(p), p - x.len()),
        Edit::DeleteForward(x) => (s.take(p) + s.skip(p + x.len()), p),
        Edit::Move(d) => (s, p + d),
    }
}

/// The edit that reverts `e`.
pub open spec fn invert_edit(e: Edit) -> Edit {
    match e {
        Edit::Insert(x) => Edit::Delete(x),
        Edit::Delete(x) => Edit::Insert(x),
        Edit::InsertForward(x) => Edit::DeleteForward(x),
        Edit::DeleteForward(x) => Edit::InsertForward(x),
        Edit::Move(d) => Edit::Move(-d),
    }
}

pub open spec fn same_kind(a: Edit, b: Edit) -> bool {
    match (a, b) {
        (Edit::Insert(_), Edit::Insert(_)) => true,
        (Edit::InsertForward(_), Edit::InsertForward(_)) => true,
        (Edit::Delete(_), Edit::Delete(_)) => true,
        (Edit::DeleteForward(_), Edit::DeleteForward(_)) => true,
        (Edit::Move(_), Edit::Move(_)) => true,
        _ => false,
    }
}

/// The single entry that stands for `older` followed by `newer`, of the same kind.
pub open spec fn join_edit(older: Edit, newer: Edit) -> Edit {
    match (older, newer) {
        (Edit::Insert(a), Edit::Insert(b)) => Edit::Insert(a + b),
        (Edit::InsertForward(a), Edit::InsertForward(b)) => Edit::InsertForward(a + b),
        (Edit::Delete(a), Edit::Delete(b)) => Edit::Delete(b + a),
        (Edit::DeleteForward(a), Edit::DeleteForward(b)) => Edit::DeleteForward(b + a),
        (Edit::Move(a), Edit::Move(b)) => Edit::Move(a + b),
        _ => older,
    }
}

/// `e` can be performed on text `s` with cursor `p` by the buffer's own operations.
pub open spec fn applicable(e: Edit, s: Seq<char>, p: int) -> bool {
    match e {
        Edit::Insert(x) => s.len() + x.len() <= MAX_CHARS,
        Edit::InsertForward(x) => s.len() + x.len() <= MAX_CHARS,
        Edit::Delete(x) => x.len() <= p,
        Edit::DeleteForward(x) => p + x.len() < s.len(),
        Edit::Move(d) => 0 <= p + d < s.len(),
    }
}

/// `e` took the buffer from `pre` to `post`, and its inverse takes it back.
pub open spec fn valid_step(e: Edit, pre: (Seq<char>, int), post: (Seq<char>, int)) -> bool {
    &&& buffer_ok(pre.0, pre.1)
    &&& applicable(e, pre.0, pre.1)
    &&& applicable(invert_edit(e), post.0, post.1)
    &&& buffer_ok(post.0, post.1)
    &&& post == apply_edit(e, pre.0, pre.1)
    &&& pre == apply_edit(invert_edit(e), post.0, post.1)
}

/// The entries of `h`, most recent first, can be reverted one by one from `(s, p)`.
pub open spec fn undoable(h: Seq<Edit>, s: Seq<char>, p: int) -> bool
    decreases h.len(),
{
    if h.len() == 0 {
        buffer_ok(s, p)
    } else {
        let prev = apply_edit(invert_edit(h[0]), s, p);
        valid_step(h[0], prev, (s, p)) && undoable(h.drop_first(), prev.0, prev.1)
    }
}

/// The entries of `u`, next first, can be replayed one by one from `(s, p)`.
pub open spec fn redoable(u: Seq<Edit>, s: Seq<char>, p: int) -> bool
    decreases u.len(),
{
    if u.len() == 0 {
        buffer_ok(s, p)
    } else {
        let next = apply_edit(u[0], s, p);
        valid_step(u[0], (s, p), next) && redoable(u.drop_first(), next.0, next.1)
    }
}

/// The state of an undo log: its two stacks, most recent first, and the buffer.
pub struct LogState {
    pub history: Seq<Edit>,
    pub undone: Seq<Edit>,
    pub text: Seq<char>,
    pub pos: int,
}

pub open spec fn log_ok(st: LogState) -> bool {
    undoable(st.history, st.text, st.pos) && redoable(st.undone, st.text, st.pos)
}

/// One undo: the latest entry is reverted and moves to the redo stack.
pub open spec fn undo_spec(st: LogState) -> LogState {
    if st.history.len() == 0 {
        st
    } else {
        let a = st.history[0];
        let prev = apply_edit(invert_edit(a), st.text, st.pos);
        LogState {
            history: st.history.drop_first(),
            undone: seq![a] + st.undone,
            text: prev.0,
            pos: prev.1,
        }
    }
}

/// One redo: the latest undone entry is replayed as recorded and returns to the history.
pub open spec fn redo_spec(st: LogState) -> LogState {
    if st.undone.len() == 0 {
        st
    } else {
        let a = st.undone[0];
        let next = apply_edit(a, st.text, st.pos);
        LogState {
            history: seq![a] + st.history,
            undone: st.undone.drop_first(),
            text: next.0,
            pos: next.1,
        }
    }
}

pub open spec fn undo_n(st: LogState, n: nat) -> LogState
    decreases n,
{
    if n == 0 {
        st
    } else {
        undo_spec(undo_n(st, (n - 1) as nat))
    }
}

pub open spec fn redo_n(st: LogState, n: nat) -> LogState
    decreases n,
{
    if n == 0 {
        st
    } else {
        redo_n(redo_spec(st), (n - 1) as nat)
    }
}

/// The history after `e` is recorded: merged into the latest entry when of the same kind.
pub open spec fn record_spec(h: Seq<Edit>, e: Edit) -> Seq<Edit> {
    if h.len() > 0 && same_kind(h[0], e) {
        seq![join_edit(h[0], e)] + h.drop_first()
    } else {
        seq![e] + h
    }
}

/// A character typed right after a run of typing joins the run's entry: a run
/// typed with nothing recorded in between is a single `Insert` of the run.
pub proof fn lemma_typing_merges(h: Seq<Edit>, typed: Seq<char>, c: char)
    ensures
        record_spec(seq![Edit::Insert(typed)] + h, Edit::Insert(seq![c])) == seq![
            Edit::Insert(typed.push(c)),
        ] + h,
{
    assert((seq![Edit::Insert(typed)] + h).drop_first() =~= h);
    assert(typed + seq![c] =~= typed.push(c));
}

/// A cursor move between two typed characters ends the run: the second
/// character starts an entry of its own.
pub proof fn lemma_move_splits_typing(h: Seq<Edit>, typed: Seq<char>, d: int, c: char)
    ensures
        record_spec(record_spec(seq![Edit::Insert(typed)] + h, Edit::Move(d)), Edit::Insert(seq![c]))
            == seq![Edit::Insert(seq![c]), Edit::Move(d), Edit::Insert(typed)] + h,
{
    let h1 = seq![Edit::Insert(typed)] + h;
    assert(record_spec(h1, Edit::Move(d)) == seq![Edit::Move(d)] + h1);
    assert(seq![Edit::Insert(seq![c])] + (seq![Edit::Move(d)] + h1) =~= seq![
        Edit::Insert(seq![c]),
        Edit::Move(d),
        Edit::Insert(typed),
    ] + h);
}

pub proof fn lemma_undo_keeps_ok(st: LogState)
    requires
        log_ok(st),
    ensures
        log_ok(undo_spec(st)),
        undo_spec(st).history.len() == if st.history.len() == 0 {
            0
        } else {
            st.history.len() - 1
        },
{
    if st.history.len() > 0 {
        let a = st.history[0];
        let u2 = seq![a] + st.undone;
        assert(u2.drop_first() =~= st.undone);
    }
}

pub proof fn lemma_redo_keeps_ok(st: LogState)
    requires
        log_ok(st),
    ensures
        log_ok(redo_spec(st)),
{
    if st.undone.len() > 0 {
        let a = st.undone[0];
        let h2 = seq![a] + st.history;
        assert(h2.drop_first() =~= st.history);
    }
}

/// A redo right after an undo restores the whole log state.
pub proof fn lemma_redo_after_undo(st: LogState)
    requires
        log_ok(st),
        st.history.len() > 0,
    ensures
        redo_spec(undo_spec(st)) == st,
{
    let a = st.history[0];
    assert(seq![a] + st.history.drop_first() =~= st.history);
    assert((seq![a] + st.undone).drop_first() =~= st.undone);
}

proof fn lemma_undo_n(st: LogState, k: nat)
    requires
        log_ok(st),
        k <= st.history.len(),
    ensures
        log_ok(undo_n(st, k)),
        undo_n(st, k).history.len() == st.history.len() - k,
        redo_n(undo_n(st, k), k) == st,
    decreases k,
{
    if k > 0 {
        lemma_undo_n(st, (k - 1) as nat);
        let mid = undo_n(st, (k - 1) as nat);
        lemma_undo_keeps_ok(mid);
        lemma_redo_after_undo(mid);
    }
}

/// Undoing every entry of the history and then redoing as many restores the
/// buffer's text and cursor, and the log itself.
pub proof fn lemma_undo_all_redo_all(st: LogState)
    requires
        log_ok(st),
    ensures
        redo_n(undo_n(st, st.history.len()), st.history.len()) == st,
        redo_n(undo_n(st, st.history.len()), st.history.len()).text == st.text,
        redo_n(undo_n(st, st.history.len()), st.history.len()).pos == st.pos,
{
    lemma_undo_n(st, st.history.len());
}

pub proof fn lemma_rev_len(s: Seq<char>)
    ensures
        rev(s).len() == s.len(),
    decreases s.len(),
{
    if s.len() > 0 {
        lemma_rev_len(s.drop_last());
    }
}

pub proof fn lemma_rev_concat(a: Seq<char>, b: Seq<char>)
    ensures
        rev(a + b) == rev(b) + rev(a),
    decreases b.len(),
{
    if b.len() == 0 {
        assert(a + b =~= a);
        assert(rev(b) + rev(a) =~= rev(a));
    } else {
        assert((a + b).drop_last() =~= a + b.drop_last());
        assert((a + b).last() == b.last());
        lemma_rev_concat(a, b.drop_last());
        assert(rev(a + b) =~= rev(b) + rev(a));
    }
}

proof fn lemma_join_insert(a: Seq<char>, b: Seq<char>, s0: (Seq<char>, int), s1: (Seq<char>, int), s2: (Seq<char>, int))
    requires
        valid_step(Edit::Insert(a), s0, s1),
        valid_step(Edit::Insert(b), s1, s2),
    ensures
        valid_step(Edit::Insert(a + b), s0, s2),
{
    let t = s0.0;
    let q = s0.1;
    let j = a + b;
    assert(s1.0.take(q + a.len()) =~= t.take(q) + a);
    assert(s1.0.skip(q + a.len()) =~= t.skip(q));
    assert(s2.0 =~= t.take(q) + j + t.skip(q));
    assert(s2.0.take(q) =~= t.take(q));
    assert(s2.0.skip(q + j.len()) =~= t.skip(q));
    assert(t =~= t.take(q) + t.skip(q));
}

proof fn lemma_join_insert_forward(a: Seq<char>, b: Seq<char>, s0: (Seq<char>, int), s1: (Seq<char>, int), s2: (Seq<char>, int))
    requires
        valid_step(Edit::InsertForward(a), s0, s1),
        valid_step(Edit::InsertForward(b), s1, s2),
    ensures
        valid_step(Edit::InsertForward(a + b), s0, s2),
{
    let t = s0.0;
    let q = s0.1;
    let j = a + b;
    lemma_rev_len(a);
    lemma_rev_len(b);
    lemma_rev_concat(a, b);
    assert(s1.0.take(q) =~= t.take(q));
    assert(s1.0.skip(q) =~= rev(a) + t.skip(q));
    assert(s2.0 =~= t.take(q) + rev(j) + t.skip(q));
    assert(s2.0.take(q) =~= t.take(q));
    assert(s2.0.skip(q + j.len()) =~= t.skip(q));
    assert(t =~= t.take(q) + t.skip(q));
}

proof fn lemma_join_delete(a: Seq<char>, b: Seq<char>, s0: (Seq<char>, int), s1: (Seq<char>, int), s2: (Seq<char>, int))
    requires
        valid_step(Edit::Delete(a), s0, s1),
        valid_step(Edit::Delete(b), s1, s2),
    ensures
        valid_step(Edit::Delete(b + a), s0, s2),
{
    let t = s0.0;
    let q = s0.1;
    let u = s1.0;
    let w = s2.0;
    let j = b + a;
    let m = q - a.len();
    let r = m - b.len();
    assert(u == t.take(m) + t.skip(q));
    assert(t == u.take(m) + a + u.skip(m));
    assert(w == u.take(r) + u.skip(m));
    assert(u == w.take(r) + b + w.skip(r));
    assert(u.take(r) =~= t.take(r));
    assert(u.skip(m) =~= t.skip(q));
    assert(w =~= t.take(r) + t.skip(q));
    assert(w.take(r) =~= t.take(r));
    assert(w.skip(r) =~= t.skip(q));
    assert(u.take(m) =~= t.take(r) + b);
    assert(u.skip(m) =~= t.skip(q));
    assert(t =~= w.take(r) + j + w.skip(r));
}

proof fn lemma_join_delete_forward(a: Seq<char>, b: Seq<char>, s0: (Seq<char>, int), s1: (Seq<char>, int), s2: (Seq<char>, int))
    requires
        valid_step(Edit::DeleteForward(a), s0, s1),
        valid_step(Edit::DeleteForward(b), s1, s2),
    ensures
        valid_step(Edit::DeleteForward(b + a), s0, s2),
{
    let t = s0.0;
    let q = s0.1;
    let j = b + a;
    lemma_rev_len(a);
    lemma_rev_len(b);
    lemma_rev_concat(b, a);
    assert(s1.0.take(q) =~= t.take(q));
    assert(s1.0.skip(q + b.len()) =~= t.skip(q + a.len() + b.len()));
    assert(s2.0 =~= t.take(q) + t.skip(q + j.len()));
    assert(t =~= s1.0.take(q) + rev(a) + s1.0.skip(q));
    assert(s1.0 =~= s2.0.take(q) + rev(b) + s2.0.skip(q));
    assert(s2.0.take(q) =~= t.take(q));
    assert(t =~= t.take(q) + rev(j) + s2.0.skip(q));
}

/// Merging two consecutive entries of the same kind gives one entry that
/// goes, and comes back, the whole way.
pub proof fn lemma_join_valid(
    e1: Edit,
    e2: Edit,
    s0: (Seq<char>, int),
    s1: (Seq<char>, int),
    s2: (Seq<char>, int),
)
    requires
        same_kind(e1, e2),
        valid_step(e1, s0, s1),
        valid_step(e2, s1, s2),
    ensures
        valid_step(join_edit(e1, e2), s0, s2),
{
    match (e1, e2) {
        (Edit::Insert(a), Edit::Insert(b)) => lemma_join_insert(a, b, s0, s1, s2),
        (Edit::InsertForward(a), Edit::InsertForward(b)) => lemma_join_insert_forward(a, b, s0, s1, s2),
        (Edit::Delete(a), Edit::Delete(b)) => lemma_join_delete(a, b, s0, s1, s2),
        (Edit::DeleteForward(a), Edit::DeleteForward(b)) => lemma_join_delete_forward(a, b, s0, s1, s2),
        _ => {},
    }
}

fn copy_chars(v: &Vec<char>) -> (r: Vec<char>)
    ensures
        r@ == v@,
{
    let mut r: Vec<char> = Vec::new();
    let mut i: usize = 0;
    while i < v.len()
        invariant
            0 <= i <= v.len(),
            r@ == v@.take(i as int),
        decreases v.len() - i,
    {
        r.push(v[i]);
        i = i + 1;
        proof {
            assert(r@ =~= v@.take(i as int));
        }
    }
    proof {
        assert(v@.take(v@.len() as int) =~= v@);
    }
    r
}

impl Action {
    /// Whether `self` and `other` are entries of the same kind, which merge.
    pub fn same_kind(&self, other: &Action) -> (r: bool)
        ensures
            r == same_kind(self@, other@),
    {
        match (self, other) {
            (Action::Insert(_), Action::Insert(_)) => true,
            (Action::InsertForward(_), Action::InsertForward(_)) => true,
            (Action::Delete(_), Action::Delete(_)) => true,
            (Action::DeleteForward(_), Action::DeleteForward(_)) => true,
            (Action::Move(_), Action::Move(_)) => true,
            _ => false,
        }
    }

    /// The entry that reverts this one.
    pub fn invert(&self) -> (r: Action)
        requires
            self@ != Edit::Move(isize::MIN as int),
        ensures
            r@ == invert_edit(self@),
    {
        match self {
            Action::Insert(s) => Action::Delete(copy_chars(s)),
            Action::Delete(s) => Action::Insert(copy_chars(s)),
            Action::InsertForward(s) => Action::DeleteForward(copy_chars(s)),
            Action::DeleteForward(s) => Action::InsertForward(copy_chars(s)),
            Action::Move(rel) => Action::Move(-*rel),
        }
    }

    /// Merges `act`, recorded right after this entry, into it.
    pub fn join(&mut self, act: Action)
        requires
            same_kind(old(self)@, act@),
            match (old(self)@, act@) {
                (Edit::Move(a), Edit::Move(b)) => isize::MIN <= a + b <= isize::MAX,
                _ => true,
            },
        ensures
            final(self)@ == join_edit(old(self)@, act@),
    {
        let joined = match (&*self, act) {
            (Action::Insert(s), Action::Insert(mut a)) => {
                let mut r = copy_chars(s);
                r.append(&mut a);
                Action::Insert(r)
            },
            (Action::InsertForward(s), Action::InsertForward(mut a)) => {
                let mut r = copy_chars(s);
                r.append(&mut a);
                Action::InsertForward(r)
            },
            (Action::Delete(s), Action::Delete(mut a)) => {
                let mut r = copy_chars(s);
                a.append(&mut r);
                Action::Delete(a)
            },
            (Action::DeleteForward(s), Action::DeleteForward(mut a)) => {
                let mut r = copy_chars(s);
                a.append(&mut r);
                Action::DeleteForward(a)
            },
            (Action::Move(rel), Action::Move(a)) => Action::Move(*rel + a),
            (_, _) => {
                proof {
                    assert(false);
                }
                Action::Move(0)
            },
        };
        *self = joined;
    }

    /// Performs this entry on `content`, through its own operations.
    pub fn apply<T: Editable>(&self, content: &mut T)
        requires
            old(content).inv(),
            applicable(self@, old(content).chars(), old(content).cursor()),
        ensures
            final(content).inv(),
            (final(content).chars(), final(content).cursor()) == apply_edit(
                self@,
                old(content).chars(),
                old(content).cursor(),
            ),
            self@ is Move ==> final(content).dirty() == old(content).dirty(),
            final(content).name_view() == old(content).name_view(),
    {
        let ghost s = content.chars();
        let ghost p = content.cursor();
        proof {
            content.lemma_inv();
        }
        match self {
            Action::Insert(v) => {
                let mut i: usize = 0;
                while i < v.len()
                    invariant
                        content.inv(),
                        content.name_view() == old(content).name_view(),
                        0 <= i <= v.len(),
                        buffer_ok(s, p),
                        s.len() + v.len() <= MAX_CHARS,
                        content.chars() == s.take(p) + v@.take(i as int) + s.skip(p),
                        content.cursor() == p + i,
                    decreases v.len() - i,
                {
                    content.insert(v[i]);
                    proof {
                        assert(content.chars() =~= s.take(p) + v@.take(i + 1) + s.skip(p));
                    }
                    i = i + 1;
                }
                proof {
                    assert(v@.take(v@.len() as int) =~= v@);
                }
            },
            Action::InsertForward(v) => {
                let mut i: usize = 0;
                while i < v.len()
                    invariant
                        content.inv(),
                        content.name_view() == old(content).name_view(),
                        0 <= i <= v.len(),
                        buffer_ok(s, p),
                        s.len() + v.len() <= MAX_CHARS,
                        content.chars() == s.take(p) + rev(v@.take(i as int)) + s.skip(p),
                        content.cursor() == p,
                    decreases v.len() - i,
                {
                    proof {
                        lemma_rev_len(v@.take(i as int));
                    }
                    content.insert_forward(v[i]);
                    proof {
                        let t = v@.take(i + 1);
                        assert(t.drop_last() =~= v@.take(i as int));
                        assert(content.chars() =~= s.take(p) + rev(t) + s.skip(p));
                    }
                    i = i + 1;
                }
                proof {
                    assert(v@.take(v@.len() as int) =~= v@);
                }
            },
            Action::Delete(v) => {
                let mut i: usize = 0;
                while i < v.len()
                    invariant
                        content.inv(),
                        content.name_view() == old(content).name_view(),
                        0 <= i <= v.len(),
                        buffer_ok(s, p),
                        p - v.len() >= 0,
                        content.chars() == s.take(p - i) + s.skip(p),
                        content.cursor() == p - i,
                    decreases v.len() - i,
                {
                    content.delete();
                    proof {
                        assert(content.chars() =~= s.take(p - (i + 1)) + s.skip(p));
                    }
                    i = i + 1;
                }
            },
            Action::DeleteForward(v) => {
                let mut i: usize = 0;
                while i < v.len()
                    invariant
                        content.inv(),
                        content.name_view() == old(content).name_view(),
                        0 <= i <= v.len(),
                        buffer_ok(s, p),
                        p + v.len() < s.len(),
                        content.chars() == s.take(p) + s.skip(p + i),
                        content.cursor() == p,
                    decreases v.len() - i,
                {
                    content.delete_forward();
                    proof {
                        assert(content.chars() =~= s.take(p) + s.skip(p + i + 1));
                    }
                    i = i + 1;
                }
            },
            Action::Move(rel) => {
                let from = content.pos();
                content.move_to((from as isize + *rel) as usize);
            },
        }
        proof {
            assert(s =~= s.take(p) + s.skip(p));
        }
    }
}

pub open spec fn log_state(h: Seq<Edit>, u: Seq<Edit>, text: Seq<char>, pos: int) -> LogState {
    LogState { history: h, undone: u, text, pos }
}

/// A buffer whose changes can be undone and redone.
pub trait Undoable: Editable {
    /// Recorded entries, most recent first.
    spec fn history(&self) -> Seq<Edit>;

    /// Undone entries, the next to redo first.
    spec fn undone(&self) -> Seq<Edit>;

    proof fn lemma_log(&self)
        requires
            self.inv(),
        ensures
            log_ok(log_state(self.history(), self.undone(), self.chars(), self.cursor())),
    ;

    /// Reverts the latest entry; nothing happens when the history is empty.
    fn undo(&mut self)
        requires
            old(self).inv(),
        ensures
            final(self).inv(),
            final(self).name_view() == old(self).name_view(),
            log_state(final(self).history(), final(self).undone(), final(self).chars(), final(self).cursor())
                == undo_spec(log_state(old(self).history(), old(self).undone(), old(self).chars(), old(self).cursor())),
    ;

    /// Replays the latest undone entry; nothing happens when there is none.
    fn redo(&mut self)
        requires
            old(self).inv(),
        ensures
            final(self).inv(),
            final(self).name_view() == old(self).name_view(),
            log_state(final(self).history(), final(self).undone(), final(self).chars(), final(self).cursor())
                == redo_spec(log_state(old(self).history(), old(self).undone(), old(self).chars(), old(self).cursor())),
    ;

    fn history_len(&self) -> (r: usize)
        requires
            self.inv(),
        ensures
            r == self.history().len(),
    ;
}

/// A buffer wrapped in an undo log.
pub struct Recorded<T: Editable> {
    content: T,
    history: VecDeque<Action>,
    undone: VecDeque<Action>,
}

/// What the entries of a log stand for.
pub open spec fn edits(q: Seq<Action>) -> Seq<Edit> {
    q.map_values(|a: Action| a@)
}

proof fn lemma_edits_push_front(a: Action, q: Seq<Action>)
    ensures
        edits(seq![a] + q) == seq![a@] + edits(q),
{
    assert(edits(seq![a] + q) =~= seq![a@] + edits(q));
}

proof fn lemma_edits_drop_first(q: Seq<Action>)
    requires
        q.len() > 0,
    ensures
        edits(q.subrange(1, q.len() as int)) == edits(q).drop_first(),
{
    assert(edits(q.subrange(1, q.len() as int)) =~= edits(q).drop_first());
}

impl<T: Editable> Recorded<T> {
    pub fn new(content: T) -> (r: Recorded<T>)
        requires
            content.inv(),
        ensures
            r.name_view() == content.name_view(),
            r.inv(),
            r.chars() == content.chars(),
            r.cursor() == content.cursor(),
            r.dirty() == content.dirty(),
            Undoable::history(&r) == Seq::<Edit>::empty(),
            Undoable::undone(&r) == Seq::<Edit>::empty(),
    {
        let r = Recorded { content, history: VecDeque::new(), undone: VecDeque::new() };
        proof {
            r.content.lemma_inv();
            assert(edits(r.history@) =~= Seq::<Edit>::empty());
            assert(edits(r.undone@) =~= Seq::<Edit>::empty());
        }
        r
    }

    /// The recorded entries, most recent first.
    pub fn entries(&self) -> (r: &VecDeque<Action>)
        ensures
            edits(r@) == Undoable::history(self),
    {
        &self.history
    }

    /// The wrapped buffer.
    pub fn content(&self) -> (r: &T)
        ensures
            r.chars() == self.chars(),
            r.cursor() == self.cursor(),
    {
        &self.content
    }

    /// Logs `act`, which took the buffer from `pre` to its current state.
    fn record(&mut self, act: Action, Ghost(pre): Ghost<(Seq<char>, int)>)
        requires
            old(self).content.inv(),
            undoable(edits(old(self).history@), pre.0, pre.1),
            valid_step(act@, pre, (old(self).content.chars(), old(self).content.cursor())),
        ensures
            final(self).content == old(self).content,
            edits(final(self).history@) == record_spec(edits(old(self).history@), act@),
            edits(final(self).undone@) == Seq::<Edit>::empty(),
            final(self).inv(),
    {
        let ghost cur = (self.content.chars(), self.content.cursor());
        let ghost h = edits(self.history@);
        self.undone.clear();
        proof {
            assert(edits(self.undone@) =~= Seq::<Edit>::empty());
        }
        let front = self.history.pop_front();
        match front {
            Some(mut a) => {
                proof {
                    lemma_edits_drop_first(old(self).history@);
                }
                if a.same_kind(&act) {
                    proof {
                        let prev = apply_edit(invert_edit(h[0]), pre.0, pre.1);
                        lemma_join_valid(a@, act@, prev, pre, cur);
                    }
                    a.join(act);
                    let ghost rest = self.history@;
                    self.history.push_front(a);
                    proof {
                        lemma_edits_push_front(a, rest);
                        assert(edits(rest) =~= h.drop_first());
                    }
                } else {
                    let ghost rest = self.history@;
                    self.history.push_front(a);
                    proof {
                        lemma_edits_push_front(a, rest);
                        assert(seq![h[0]] + h.drop_first() =~= h);
                    }
                    let ghost rest2 = self.history@;
                    self.history.push_front(act);
                    proof {
                        lemma_edits_push_front(act, rest2);
                    }
                }
            },
            None => {
                let ghost rest = self.history@;
                self.history.push_front(act);
                proof {
                    lemma_edits_push_front(act, rest);
                }
            },
        }
        proof {
            let hh = edits(self.history@);
            assert(hh.drop_first() == record_spec(h, act@).drop_first());
            if h.len() > 0 && same_kind(h[0], act@) {
                assert(hh.drop_first() =~= h.drop_first());
            } else {
                assert(hh.drop_first() =~= h);
            }
        }
    }
}

proof fn lemma_rev_single(c: char)
    ensures
        rev(seq![c]) == seq![c],
{
    let e = seq![c].drop_last();
    assert(e =~= Seq::<char>::empty());
    assert(rev(e) == e);
    assert(rev(seq![c]) =~= seq![c]);
}

proof fn lemma_insert_step(s: Seq<char>, p: int, c: char)
    requires
        buffer_ok(s, p),
        buffer_ok(s.insert(p, c), p + 1),
    ensures
        valid_step(Edit::Insert(seq![c]), (s, p), (s.insert(p, c), p + 1)),
{
    let t = s.insert(p, c);
    assert(s.take(p) + seq![c] + s.skip(p) =~= t);
    assert(t.take(p) + t.skip(p + 1) =~= s);
}

proof fn lemma_insert_forward_step(s: Seq<char>, p: int, c: char)
    requires
        buffer_ok(s, p),
        buffer_ok(s.insert(p, c), p),
    ensures
        valid_step(Edit::InsertForward(seq![c]), (s, p), (s.insert(p, c), p)),
{
    let t = s.insert(p, c);
    lemma_rev_single(c);
    assert(s.take(p) + seq![c] + s.skip(p) =~= t);
    assert(t.take(p) + t.skip(p + 1) =~= s);
}

proof fn lemma_delete_step(s: Seq<char>, p: int)
    requires
        buffer_ok(s, p),
        buffer_ok(s.remove(p - 1), p - 1),
        p > 0,
    ensures
        valid_step(Edit::Delete(seq![s[p - 1]]), (s, p), (s.remove(p - 1), p - 1)),
{
    let t = s.remove(p - 1);
    assert(s.take(p - 1) + s.skip(p) =~= t);
    assert(t.take(p - 1) + seq![s[p - 1]] + t.skip(p - 1) =~= s);
}

proof fn lemma_delete_forward_step(s: Seq<char>, p: int)
    requires
        buffer_ok(s, p),
        buffer_ok(s.remove(p), p),
        p + 1 < s.len(),
    ensures
        valid_step(Edit::DeleteForward(seq![s[p]]), (s, p), (s.remove(p), p)),
{
    let t = s.remove(p);
    lemma_rev_single(s[p]);
    assert(s.take(p) + s.skip(p + 1) =~= t);
    assert(t.take(p) + seq![s[p]] + t.skip(p) =~= s);
}

fn single(c: char) -> (r: Vec<char>)
    ensures
        r@ == seq![c],
{
    let mut r: Vec<char> = Vec::new();
    r.push(c);
    proof {
        assert(r@ =~= seq![c]);
    }
    r
}

impl<T: Editable> Recorded<T> {
    /// Logs the displacement of the wrapped buffer's cursor from `from`.
    fn logged_move(&mut self, from: usize)
        requires
            old(self).content.inv(),
            undoable(edits(old(self).history@), old(self).content.chars(), from as int),
            from < old(self).content.chars().len(),
        ensures
            final(self).content == old(self).content,
            edits(final(self).history@) == record_spec(
                edits(old(self).history@),
                Edit::Move(old(self).content.cursor() - from),
            ),
            edits(final(self).undone@) == Seq::<Edit>::empty(),
            final(self).inv(),
    {
        proof {
            self.content.lemma_inv();
        }
        let to = self.content.pos();
        let ghost pre = (self.content.chars(), from as int);
        self.record(Action::Move(to as isize - from as isize), Ghost(pre));
    }
}

impl<T: Editable> Editable for Recorded<T> {
    closed spec fn chars(&self) -> Seq<char> {
        self.content.chars()
    }

    closed spec fn cursor(&self) -> int {
        self.content.cursor()
    }

    closed spec fn dirty(&self) -> bool {
        self.content.dirty()
    }

    closed spec fn name_view(&self) -> Seq<char> {
        self.content.name_view()
    }

    closed spec fn inv(&self) -> bool {
        &&& self.content.inv()
        &&& log_ok(
            LogState {
                history: edits(self.history@),
                undone: edits(self.undone@),
                text: self.content.chars(),
                pos: self.content.cursor(),
            },
        )
    }

    proof fn lemma_inv(&self) {
        self.content.lemma_inv();
    }

    fn step(&mut self, mov: Movement)
        ensures
            Undoable::history(final(self)) == record_spec(
                Undoable::history(old(self)),
                Edit::Move(final(self).cursor() - old(self).cursor()),
            ),
            Undoable::undone(final(self)) == Seq::<Edit>::empty(),
    {
        let from = self.content.pos();
        self.content.step(mov);
        self.logged_move(from);
    }

    fn move_to(&mut self, pos: usize)
        ensures
            Undoable::history(final(self)) == record_spec(
                Undoable::history(old(self)),
                Edit::Move(final(self).cursor() - old(self).cursor()),
            ),
            Undoable::undone(final(self)) == Seq::<Edit>::empty(),
    {
        let from = self.content.pos();
        self.content.move_to(pos);
        self.logged_move(from);
    }

    fn move_at(&mut self, line: usize, col: usize)
        ensures
            Undoable::history(final(self)) == record_spec(
                Undoable::history(old(self)),
                Edit::Move(final(self).cursor() - old(self).cursor()),
            ),
            Undoable::undone(final(self)) == Seq::<Edit>::empty(),
    {
        let from = self.content.pos();
        self.content.move_at(line, col);
        self.logged_move(from);
    }

    fn insert(&mut self, c: char)
        ensures
            Undoable::history(final(self)) == record_spec(Undoable::history(old(self)), Edit::Insert(seq![c])),
            Undoable::undone(final(self)) == Seq::<Edit>::empty(),
    {
        let ghost pre = (self.content.chars(), self.content.cursor());
        self.content.insert(c);
        proof {
            self.content.lemma_inv();
            lemma_insert_step(pre.0, pre.1, c);
        }
        self.record(Action::Insert(single(c)), Ghost(pre));
    }

    fn insert_forward(&mut self, c: char)
        ensures
            Undoable::history(final(self)) == record_spec(Undoable::history(old(self)), Edit::InsertForward(seq![c])),
            Undoable::undone(final(self)) == Seq::<Edit>::empty(),
    {
        let ghost pre = (self.content.chars(), self.content.cursor());
        self.content.insert_forward(c);
        proof {
            self.content.lemma_inv();
            lemma_insert_forward_step(pre.0, pre.1, c);
        }
        self.record(Action::InsertForward(single(c)), Ghost(pre));
    }

    fn delete(&mut self) -> (r: Option<char>)
        ensures
            match r {
                Some(c) => {
                    &&& Undoable::history(final(self)) == record_spec(Undoable::history(old(self)), Edit::Delete(seq![c]))
                    &&& Undoable::undone(final(self)) == Seq::<Edit>::empty()
                },
                None => {
                    &&& Undoable::history(final(self)) == Undoable::history(old(self))
                    &&& Undoable::undone(final(self)) == Undoable::undone(old(self))
                },
            },
    {
        let ghost pre = (self.content.chars(), self.content.cursor());
        let r = self.content.delete();
        proof {
            self.content.lemma_inv();
        }
        match r {
            Some(c) => {
                proof {
                    lemma_delete_step(pre.0, pre.1);
                }
                self.record(Action::Delete(single(c)), Ghost(pre));
            },
            None => {},
        }
        r
    }

    fn delete_forward(&mut self) -> (r: Option<char>)
        ensures
            match r {
                Some(c) => {
                    &&& Undoable::history(final(self)) == record_spec(Undoable::history(old(self)), Edit::DeleteForward(seq![c]))
                    &&& Undoable::undone(final(self)) == Seq::<Edit>::empty()
                },
                None => {
                    &&& Undoable::history(final(self)) == Undoable::history(old(self))
                    &&& Undoable::undone(final(self)) == Undoable::undone(old(self))
                },
            },
    {
        let ghost pre = (self.content.chars(), self.content.cursor());
        let r = self.content.delete_forward();
        proof {
            self.content.lemma_inv();
        }
        match r {
            Some(c) => {
                proof {
                    lemma_delete_forward_step(pre.0, pre.1);
                }
                self.record(Action::DeleteForward(single(c)), Ghost(pre));
            },
            None => {},
        }
        r
    }

    fn pos(&self) -> (r: usize) {
        self.content.pos()
    }

    fn line(&self) -> (r: usize) {
        self.content.line()
    }

    fn col(&self) -> (r: usize) {
        self.content.col()
    }

    fn line_count(&self) -> (r: usize) {
        self.content.line_count()
    }

    fn len(&self) -> (r: usize) {
        self.content.len()
    }

    fn char_at(&self, i: usize) -> (r: char) {
        self.content.char_at(i)
    }

    fn line_index_to_char_index(&self, line: usize) -> (r: usize) {
        self.content.line_index_to_char_index(line)
    }

    fn was_modified(&self) -> (r: bool) {
        self.content.was_modified()
    }
}

impl<T: Editable> Undoable for Recorded<T> {
    closed spec fn history(&self) -> Seq<Edit> {
        edits(self.history@)
    }

    closed spec fn undone(&self) -> Seq<Edit> {
        edits(self.undone@)
    }

    proof fn lemma_log(&self) {
    }

    fn undo(&mut self) {
        let ghost st = log_state(edits(self.history@), edits(self.undone@), self.content.chars(), self.content.cursor());
        proof {
            lemma_undo_keeps_ok(st);
            self.content.lemma_inv();
        }
        let ghost hist = self.history@;
        let ghost und = self.undone@;
        match self.history.pop_front() {
            None => {},
            Some(a) => {
                proof {
                    lemma_edits_drop_first(hist);
                    assert(a@ == st.history[0]);
                }
                let inverse = a.invert();
                self.undone.push_front(a);
                proof {
                    lemma_edits_push_front(a, und);
                }
                inverse.apply(&mut self.content);
            },
        }
    }

    fn redo(&mut self) {
        let ghost st = log_state(edits(self.history@), edits(self.undone@), self.content.chars(), self.content.cursor());
        proof {
            lemma_redo_keeps_ok(st);
            self.content.lemma_inv();
        }
        let ghost hist = self.history@;
        let ghost und = self.undone@;
        match self.undone.pop_front() {
            None => {},
            Some(a) => {
                proof {
                    lemma_edits_drop_first(und);
                    assert(a@ == st.undone[0]);
                }
                a.apply(&mut self.content);
                self.history.push_front(a);
                proof {
                    lemma_edits_push_front(a, hist);
                }
            },
        }
    }

    fn history_len(&self) -> (r: usize) {
        self.history.len()
    }
}

impl<T: Named> Named for Recorded<T> {
    fn name(&self) -> (r: &String) {
        self.content.name()
    }

    fn set_name(&mut self, name: String) {
        self.content.set_name(name);
    }
}

impl<T: Saveable> Saveable for Recorded<T> {
    fn mark_saved(&mut self) {
        self.content.mark_saved();
    }
}

} // verus!
