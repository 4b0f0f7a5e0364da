//! Lines of a character sequence: where they start and which one an offset is on.
use vstd::prelude::*;

verus! {

/// The line terminator of the text model.
pub open spec fn is_nl(c: char) -> bool {
    c == '\n'
}

/// Number of line terminators in `s`.
pub open spec fn nls(s: Seq<char>) -> nat
    decreases s.len(),
{
    if s.len() == 0 {
        0
    } else {
        nls(s.drop_last()) + if s.last() == '\n' { 1nat } else { 0nat }
    }
}

/// Index of the line that holds the char at offset `i`: the terminators before it.
pub open spec fn line_of(s: Seq<char>, i: int) -> nat {
    nls(s.take(i))
}

/// `i` is where line `l` of `s` begins.
pub open spec fn is_line_start(s: Seq<char>, i: int, l: int) -> bool {
    &&& 0 <= i <= s.len()
    &&& line_of(s, i) == l
    &&& (i == 0 || s[i - 1] == '\n')
}

/// Offset of the first char of line `l` (meaningful for `l <= nls(s)`).
pub open spec fn line_start(s: Seq<char>, l: int) -> int {
    choose|i: int| is_line_start(s, i, l)
}

/// Length of line `l`, its terminator included.
pub open spec fn line_len(s: Seq<char>, l: int) -> int {
    line_start(s, l + 1) - line_start(s, l)
}

/// Shape every buffer keeps: non-empty, ending in a terminator.
pub open spec fn terminated(s: Seq<char>) -> bool {
    s.len() > 0 && s.last() == '\n'
}

pub proof fn lemma_line_of_step(s: Seq<char>, i: int)
    requires
        0 <= i < s.len(),
    ensures
        line_of(s, i + 1) == line_of(s, i) + if s[i] == '\n' { 1nat } else { 0nat },
{
    assert(s.take(i + 1).drop_last() =~= s.take(i));
}

pub proof fn lemma_line_of_mono(s: Seq<char>, i: int, j: int)
    requires
        0 <= i <= j <= s.len(),
    ensures
        line_of(s, i) <= line_of(s, j),
        i < j && s[j - 1] == '\n' ==> line_of(s, i) < line_of(s, j),
    decreases j - i,
{
    if i < j {
        lemma_line_of_step(s, j - 1);
        lemma_line_of_mono(s, i, j - 1);
    }
}

pub proof fn lemma_line_of_bounds(s: Seq<char>, i: int)
    requires
        0 <= i <= s.len(),
    ensures
        line_of(s, i) <= nls(s),
        line_of(s, 0) == 0,
{
    assert(s.take(s.len() as int) =~= s);
    assert(s.take(0) =~= Seq::<char>::empty());
    lemma_line_of_mono(s, i, s.len() as int);
}

/// A line has at most one start.
pub proof fn lemma_line_start_unique(s: Seq<char>, i: int, l: int)
    requires
        is_line_start(s, i, l),
    ensures
        line_start(s, l) == i,
{
    let j = line_start(s, l);
    assert(is_line_start(s, j, l));
    if j < i {
        lemma_line_of_mono(s, j, i);
    } else if i < j {
        lemma_line_of_mono(s, i, j);
    }
}

/// In a terminated buffer, line `l + 1` starts right after the terminator of line `l`,
/// and every offset of line `l` lies between its start and that terminator.
pub proof fn lemma_in_line(s: Seq<char>, p: int)
    requires
        0 <= p < s.len(),
    ensures
        line_start(s, line_of(s, p) as int) <= p,
        is_line_start(s, line_start(s, line_of(s, p) as int), line_of(s, p) as int),
    decreases p,
{
    if p == 0 {
        lemma_line_of_bounds(s, 0);
        lemma_line_start_unique(s, 0, 0);
    } else if s[p - 1] == '\n' {
        lemma_line_start_unique(s, p, line_of(s, p) as int);
    } else {
        lemma_line_of_step(s, p - 1);
        lemma_in_line(s, p - 1);
    }
}

/// In a terminated buffer every offset lies on a line that has a terminator,
/// and the line after it starts within the buffer.
pub proof fn lemma_cursor_line(s: Seq<char>, p: int)
    requires
        terminated(s),
        0 <= p < s.len(),
    ensures
        line_of(s, p) < nls(s),
        line_of(s, s.len() - 1) + 1 == nls(s),
{
    let n = s.len() as int;
    lemma_line_of_step(s, n - 1);
    lemma_line_of_mono(s, p, n - 1);
    assert(s.take(n) =~= s);
}

/// Two consecutive line starts enclose a non-empty line whose last char is a terminator.
pub proof fn lemma_line_bounds(s: Seq<char>, i: int, j: int, l: int)
    requires
        is_line_start(s, i, l),
        is_line_start(s, j, l + 1),
    ensures
        i < j,
        s[j - 1] == '\n',
        line_start(s, l) == i,
        line_start(s, l + 1) == j,
        line_len(s, l) == j - i,
{
    lemma_line_start_unique(s, i, l);
    lemma_line_start_unique(s, j, l + 1);
    if j <= i {
        lemma_line_of_mono(s, j, i);
    }
    lemma_line_of_bounds(s, 0);
}

/// Every line up to the number of terminators has a start.
pub proof fn lemma_line_start_exists(s: Seq<char>, l: int)
    requires
        0 <= l <= nls(s),
    ensures
        is_line_start(s, line_start(s, l), l),
{
    assert(s.take(s.len() as int) =~= s);
    lemma_starts_upto(s, s.len() as int, l);
}

proof fn lemma_starts_upto(s: Seq<char>, k: int, l: int)
    requires
        0 <= k <= s.len(),
        0 <= l <= line_of(s, k),
    ensures
        is_line_start(s, line_start(s, l), l),
    decreases k,
{
    if k == 0 {
        assert(s.take(0) =~= Seq::<char>::empty());
        assert(is_line_start(s, 0, 0));
    } else {
        lemma_line_of_step(s, k - 1);
        if l <= line_of(s, k - 1) {
            lemma_starts_upto(s, k - 1, l);
        } else {
            assert(is_line_start(s, k, l));
        }
    }
}

/// An offset on line `l` lies between the start of `l` and the start of `l + 1`.
pub proof fn lemma_offset_in_line(s: Seq<char>, p: int, i: int, j: int, l: int)
    requires
        0 <= p <= s.len(),
        line_of(s, p) == l,
        is_line_start(s, i, l),
        is_line_start(s, j, l + 1),
    ensures
        i <= p < j,
{
    if j <= p {
        lemma_line_of_mono(s, j, p);
    }
    if p < i {
        lemma_line_of_mono(s, p, i);
    }
}

/// A buffer has no more terminators than characters.
pub proof fn lemma_nls_le_len(s: Seq<char>)
    ensures
        nls(s) <= s.len(),
    decreases s.len(),
{
    if s.len() > 0 {
        lemma_nls_le_len(s.drop_last());
    }
}

} // verus!
