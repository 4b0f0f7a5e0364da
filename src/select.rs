//! The selection layer: an optional inclusive range of offsets over a buffer,
//! which can be read out or erased.
use crate::lines::terminated;
use crate::record::{apply_edit, invert_edit, record_spec, Edit, Recorded, Undoable};
use crate::strings::push_char;
use crate::text::{buffer_ok, Editable, Movement, Named, Saveable, MAX_CHARS};
use vstd::prelude::*;

verus! {

/// An inclusive range `(begin, end)` of offsets.
pub type Selection = (usize, usize);

/// Where the cursor goes before a selection is erased: just past its end,
/// but never past the final terminator.
pub open spec fn sel_stop(e: int, len: int) -> int {
    if e + 1 < len - 1 { e + 1 } else { len - 1 }
}

/// The undo history after the selection `b..=e` of text `s`, with the cursor
/// at `p`, is erased: the move to where the erasing starts, then one `Delete`
/// entry holding the erased characters, when there are any.
pub open spec fn erase_log(h: Seq<Edit>, s: Seq<char>, p: int, b: int, e: int) -> Seq<Edit> {
    let stop = sel_stop(e, s.len() as int);
    let moved = record_spec(h, Edit::Move(stop - p));
    if b < stop {
        seq![Edit::Delete(s.subrange(b, stop))] + moved
    } else {
        moved
    }
}

/// A buffer with a selection, over an undo log.
pub trait Selectable: Undoable {
    spec fn selection(&self) -> Option<Selection>;

    fn sel(&self) -> (r: &Option<Selection>)
        ensures
            *r == self.selection(),
    ;

    /// Selects `begin..=end`.
    fn set_sel(&mut self, selection: Selection)
        requires
            old(self).inv(),
            selection.0 <= selection.1 < old(self).chars().len(),
        ensures
            final(self).inv(),
            final(self).name_view() == old(self).name_view(),
            final(self).selection() == Some(selection),
            final(self).chars() == old(self).chars(),
            final(self).cursor() == old(self).cursor(),
            final(self).dirty() == old(self).dirty(),
            final(self).history() == old(self).history(),
            final(self).undone() == old(self).undone(),
    ;

    fn reset_sel(&mut self)
        requires
            old(self).inv(),
        ensures
            final(self).inv(),
            final(self).name_view() == old(self).name_view(),
            final(self).selection() is None,
            final(self).chars() == old(self).chars(),
            final(self).cursor() == old(self).cursor(),
            final(self).dirty() == old(self).dirty(),
            final(self).history() == old(self).history(),
            final(self).undone() == old(self).undone(),
    ;

    /// Whether `pos` lies in the selection, both ends included.
    fn in_sel(&self, pos: usize) -> (r: bool)
        ensures
            r == match self.selection() {
                Some((b, e)) => b <= pos <= e,
                None => false,
            },
    ;

    /// The selected characters, or nothing when there is no selection.
    fn slice_sel(&self) -> (r: String)
        requires
            self.inv(),
        ensures
            r@ == match self.selection() {
                Some((b, e)) => self.chars().subrange(b as int, e + 1),
                None => Seq::<char>::empty(),
            },
    ;

    /// Erases the selection by backspacing from just past its end, and drops it.
    /// The move and the backspaces go through the undo log, the backspaces
    /// merged into one `Delete` entry.
    fn delete_sel(&mut self)
        requires
            old(self).inv(),
        ensures
            final(self).inv(),
            final(self).name_view() == old(self).name_view(),
            final(self).selection() is None,
            match old(self).selection() {
                Some((b, e)) => {
                    let stop = sel_stop(e as int, old(self).chars().len() as int);
                    &&& final(self).chars() == old(self).chars().take(b as int) + old(
                        self,
                    ).chars().skip(stop)
                    &&& final(self).cursor() == b
                    &&& final(self).history() == erase_log(
                        old(self).history(),
                        old(self).chars(),
                        old(self).cursor(),
                        b as int,
                        e as int,
                    )
                    &&& final(self).undone() == Seq::<Edit>::empty()
                },
                None => {
                    &&& final(self).chars() == old(self).chars()
                    &&& final(self).cursor() == old(self).cursor()
                    &&& final(self).history() == old(self).history()
                    &&& final(self).undone() == old(self).undone()
                },
            },
    ;
}

/// A buffer wrapped in a selection layer. An edit of the content made
/// through this layer, an undo or a redo drops the selection.
pub struct Select<T: Editable> {
    content: T,
    sel: Option<Selection>,
}

impl<T: Editable> Select<T> {
    /// The selection, if any.
    pub closed spec fn selection_view(&self) -> Option<Selection> {
        self.sel
    }

    pub fn new(content: T) -> (r: Select<T>)
        requires
            content.inv(),
        ensures
            r.name_view() == content.name_view(),
            r.inv(),
            r.chars() == content.chars(),
            r.cursor() == content.cursor(),
            r.dirty() == content.dirty(),
            r.selection_view() is None,
    {
        Select { content, sel: None }
    }

    /// The wrapped buffer.
    pub fn content(&self) -> (r: &T)
        ensures
            r.chars() == self.chars(),
            r.cursor() == self.cursor(),
    {
        &self.content
    }
}

impl<T: Editable> Editable for Select<T> {
    closed spec fn chars(&self) -> Seq<char> {
        self.content.chars()
    }

    closed spec fn cursor(&self) -> int {
        self.content.cursor()
    }

    closed spec fn dirty(&self) -> bool {
        self.content.dirty()
    }

    closed spec fn name_view(&self) -> Seq<char> {
        self.content.name_view()
    }

    closed spec fn inv(&self) -> bool {
        &&& self.content.inv()
        &&& (self.sel matches Some((b, e)) ==> b <= e < self.content.chars().len())
    }

    proof fn lemma_inv(&self) {
        self.content.lemma_inv();
    }

    fn step(&mut self, mov: Movement) {
        self.content.step(mov);
    }

    fn move_to(&mut self, pos: usize) {
        self.content.move_to(pos);
    }

    fn move_at(&mut self, line: usize, col: usize) {
        self.content.move_at(line, col);
    }

    fn insert(&mut self, c: char) {
        self.sel = None;
        self.content.insert(c);
    }

    fn insert_forward(&mut self, c: char) {
        self.sel = None;
        self.content.insert_forward(c);
    }

    fn delete(&mut self) -> (r: Option<char>) {
        self.sel = None;
        self.content.delete()
    }

    fn delete_forward(&mut self) -> (r: Option<char>) {
        self.sel = None;
        self.content.delete_forward()
    }

    fn pos(&self) -> (r: usize) {
        self.content.pos()
    }

    fn line(&self) -> (r: usize) {
        self.content.line()
    }

    fn col(&self) -> (r: usize) {
        self.content.col()
    }

    fn line_count(&self) -> (r: usize) {
        self.content.line_count()
    }

    fn len(&self) -> (r: usize) {
        self.content.len()
    }

    fn char_at(&self, i: usize) -> (r: char) {
        self.content.char_at(i)
    }

    fn line_index_to_char_index(&self, line: usize) -> (r: usize) {
        self.content.line_index_to_char_index(line)
    }

    fn was_modified(&self) -> (r: bool) {
        self.content.was_modified()
    }
}

impl<T: Editable> Selectable for Select<Recorded<T>> {
    open spec fn selection(&self) -> Option<Selection> {
        self.selection_view()
    }

    fn sel(&self) -> (r: &Option<Selection>) {
        &self.sel
    }

    fn set_sel(&mut self, selection: Selection) {
        self.sel = Some(selection);
    }

    fn reset_sel(&mut self) {
        self.sel = None;
    }

    fn in_sel(&self, pos: usize) -> (r: bool) {
        match self.sel {
            Some((beg, end)) => pos >= beg && pos <= end,
            None => false,
        }
    }

    fn slice_sel(&self) -> (r: String) {
        let mut r = String::new();
        match self.sel {
            Some((beg, end)) => {
                let ghost s = self.content.chars();
                proof {
                    self.content.lemma_inv();
                }
                let mut i = beg;
                while i <= end
                    invariant
                        self.inv(),
                        end < s.len() <= MAX_CHARS,
                        self.sel == Some((beg, end)),
                        s == self.content.chars(),
                        beg <= i <= end + 1,
                        r@ == s.subrange(beg as int, i as int),
                    decreases end + 1 - i,
                {
                    let c = self.content.char_at(i);
                    push_char(&mut r, c);
                    i = i + 1;
                    proof {
                        assert(r@ =~= s.subrange(beg as int, i as int));
                    }
                }
            },
            None => {
                proof {
                    assert(r@ =~= Seq::<char>::empty());
                }
            },
        }
        r
    }

    fn delete_sel(&mut self) {
        match self.sel {
            Some((beg, end)) => {
                let ghost s = self.content.chars();
                let ghost h = self.content.history();
                proof {
                    self.content.lemma_inv();
                }
                let len = self.content.len();
                let stop = if end + 1 < len - 1 { end + 1 } else { len - 1 };
                let ghost p = self.content.cursor();
                self.content.move_to(stop);
                let ghost moved = record_spec(h, Edit::Move(stop - p));
                proof {
                    lemma_move_front(h, stop - p);
                }
                let mut i = beg;
                while i < stop
                    invariant
                        self.content.inv(),
                        self.content.name_view() == old(self).content.name_view(),
                        beg <= i <= stop,
                        stop < s.len(),
                        beg < s.len(),
                        self.content.chars() == s.take(stop - (i - beg)) + s.skip(stop as int),
                        self.content.cursor() == stop - (i - beg),
                        moved.len() > 0,
                        moved[0] is Move,
                        self.content.undone() == Seq::<Edit>::empty(),
                        i == beg ==> self.content.history() == moved,
                        i > beg ==> self.content.history() == seq![
                            Edit::Delete(s.subrange(stop - (i - beg), stop as int)),
                        ] + moved,
                    decreases stop - i,
                {
                    let ghost hist = self.content.history();
                    let ghost cur = self.content.chars();
                    let r = self.content.delete();
                    proof {
                        let k = stop - (i - beg);
                        assert(cur[k - 1] == s[k - 1]);
                        assert(self.content.chars() =~= s.take(stop - (i + 1 - beg)) + s.skip(
                            stop as int,
                        ));
                        if i == beg {
                            assert(seq![s[k - 1]] =~= s.subrange(k - 1, stop as int));
                        } else {
                            assert(seq![s[k - 1]] + s.subrange(k, stop as int) =~= s.subrange(k - 1, stop as int));
                            assert(hist.drop_first() =~= moved);
                        }
                    }
                    i = i + 1;
                }
                self.sel = None;
            },
            None => {},
        }
    }
}

proof fn lemma_move_front(h: Seq<Edit>, d: int)
    ensures
        record_spec(h, Edit::Move(d)).len() > 0,
        record_spec(h, Edit::Move(d))[0] is Move,
{
}

/// Undoing right after a selection is erased puts its characters back.
pub proof fn lemma_undo_after_erase(s: Seq<char>, p: int, b: int, e: int, h: Seq<Edit>)
    requires
        buffer_ok(s, p),
        0 <= b <= e < s.len(),
        b < sel_stop(e, s.len() as int),
    ensures
        ({
            let stop = sel_stop(e, s.len() as int);
            let after = s.take(b) + s.skip(stop);
            apply_edit(invert_edit(erase_log(h, s, p, b, e)[0]), after, b).0 == s
        }),
{
    let stop = sel_stop(e, s.len() as int);
    let after = s.take(b) + s.skip(stop);
    assert(after.take(b) + s.subrange(b, stop) + after.skip(b) =~= s);
}

impl<T: Named> Named for Select<T> {
    fn name(&self) -> (r: &String) {
        self.content.name()
    }

    fn set_name(&mut self, name: String) {
        self.content.set_name(name);
    }
}

impl<T: Undoable> Undoable for Select<T> {
    closed spec fn history(&self) -> Seq<Edit> {
        self.content.history()
    }

    closed spec fn undone(&self) -> Seq<Edit> {
        self.content.undone()
    }

    proof fn lemma_log(&self) {
        self.content.lemma_log();
    }

    fn undo(&mut self) {
        self.sel = None;
        self.content.undo();
    }

    fn redo(&mut self) {
        self.sel = None;
        self.content.redo();
    }

    fn history_len(&self) -> (r: usize) {
        self.content.history_len()
    }
}

/// A selection of `e - b + 1` characters that stops before the final terminator
/// reads out as that many characters, and erasing it shortens the buffer by as many.
pub proof fn lemma_selection_size(s: Seq<char>, b: int, e: int)
    requires
        terminated(s),
        0 <= b <= e,
        e + 1 < s.len(),
    ensures
        s.subrange(b, e + 1).len() == e - b + 1,
        (s.take(b) + s.skip(sel_stop(e, s.len() as int))).len() == s.len() - (e - b + 1),
{
}

impl<T: Saveable> Saveable for Select<T> {
    fn mark_saved(&mut self) {
        self.content.mark_saved();
    }
}

} // verus!
