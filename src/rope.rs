//! The rope that holds a buffer's characters, seen through ropey's `Rope`.
//!
//! The crate is built without ropey's `cr_lines` and `unicode_lines` features,
//! so `'\n'` is the only line break the rope recognises (a CRLF pair also ends
//! in it and counts once).
use crate::lines::{is_line_start, line_of, nls};
use vstd::prelude::*;

verus! {

#[verifier::external_type_specification]
#[verifier::external_body]
pub struct ExRope(ropey::Rope);

/// The characters a rope holds, in order.
pub uninterp spec fn rope_chars(r: ropey::Rope) -> Seq<char>;

/// Relies on `Rope::from_str`: the rope holds exactly the characters of `s`.
#[verifier::external_body]
pub(crate) fn rope_from_str(s: &str) -> (r: ropey::Rope)
    ensures
        rope_chars(r) == s@,
{
    ropey::Rope::from_str(s)
}

/// Relies on `Rope::len_chars`: the number of characters.
#[verifier::external_body]
pub(crate) fn rope_len(r: &ropey::Rope) -> (n: usize)
    ensures
        n == rope_chars(*r).len(),
{
    r.len_chars()
}

/// Relies on `Rope::char`: the character at an offset (it panics out of bounds).
#[verifier::external_body]
pub(crate) fn rope_char(r: &ropey::Rope, i: usize) -> (c: char)
    requires
        i < rope_chars(*r).len(),
    ensures
        c == rope_chars(*r)[i as int],
{
    r.char(i)
}

/// Relies on `Rope::insert_char`: `c` goes in at offset `i` (it panics past the end).
#[verifier::external_body]
pub(crate) fn rope_insert_char(r: &mut ropey::Rope, i: usize, c: char)
    requires
        i <= rope_chars(*old(r)).len(),
    ensures
        rope_chars(*final(r)) == rope_chars(*old(r)).insert(i as int, c),
{
    r.insert_char(i, c)
}

/// Relies on `Rope::remove`: the characters in `start..end` leave the rope
/// (it panics on a reversed or out-of-bounds range).
#[verifier::external_body]
pub(crate) fn rope_remove(r: &mut ropey::Rope, start: usize, end: usize)
    requires
        start <= end <= rope_chars(*old(r)).len(),
    ensures
        rope_chars(*final(r)) == rope_chars(*old(r)).take(start as int) + rope_chars(
            *old(r),
        ).skip(end as int),
{
    r.remove(start..end)
}

/// Relies on `Rope::len_lines`: one more than the number of line breaks.
#[verifier::external_body]
pub(crate) fn rope_len_lines(r: &ropey::Rope) -> (n: usize)
    ensures
        n == nls(rope_chars(*r)) + 1,
{
    r.len_lines()
}

/// Relies on `Rope::char_to_line`: the line breaks before offset `i`
/// (it panics past the end).
#[verifier::external_body]
pub(crate) fn rope_char_to_line(r: &ropey::Rope, i: usize) -> (l: usize)
    requires
        i <= rope_chars(*r).len(),
    ensures
        l == line_of(rope_chars(*r), i as int),
{
    r.char_to_line(i)
}

/// Relies on `Rope::line_to_char`: the offset where line `l` begins, that is the
/// start of the rope or the offset just after a line break.
#[verifier::external_body]
pub(crate) fn rope_line_to_char(r: &ropey::Rope, l: usize) -> (i: usize)
    requires
        l <= nls(rope_chars(*r)),
    ensures
        is_line_start(rope_chars(*r), i as int, l as int),
{
    r.line_to_char(l)
}

} // verus!
