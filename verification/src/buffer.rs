//! The text buffer that changes are applied to: a rope, modelled by the
//! sequence of the chars it holds. Offsets into a buffer count chars.

use ropey::Rope;
use vstd::prelude::*;

verus! {

/// `ropey::Rope`. Of what is inside a rope, only `rope_text` speaks.
#[verifier::external_type_specification]
#[verifier::external_body]
pub struct ExRope(Rope);

/// The chars that a rope holds, in order.
pub uninterp spec fn rope_text(rope: Rope) -> Seq<char>;

/// `text` with the chars from `start` up to `end` taken out.
pub open spec fn without_range(text: Seq<char>, start: int, end: int) -> Seq<char> {
    text.subrange(0, start) + text.subrange(end, text.len() as int)
}

/// `text` with `inserted` put in before offset `at`.
pub open spec fn with_inserted(text: Seq<char>, at: int, inserted: Seq<char>) -> Seq<char> {
    text.subrange(0, at) + inserted + text.subrange(at, text.len() as int)
}

/// `Rope::len_chars`: the number of chars in the rope.
#[verifier::external_body]
pub(crate) fn rope_len(rope: &Rope) -> (n: usize)
    ensures
        n == rope_text(*rope).len(),
{
    rope.len_chars()
}

/// `Rope::remove` on the char range `start..end`, which has to lie inside
/// the rope: afterwards the rope holds what it held before without the chars
/// of that range.
#[verifier::external_body]
pub(crate) fn rope_remove(rope: &mut Rope, start: usize, end: usize)
    requires
        start <= end <= rope_text(*old(rope)).len(),
    ensures
        rope_text(*final(rope)) == without_range(rope_text(*old(rope)), start as int, end as int),
{
    rope.remove(start..end)
}

/// `Rope::insert` at the char index `at`, which may not lie behind the end
/// of the rope: afterwards the rope holds the chars of `text` before the
/// char that stood at `at`.
#[verifier::external_body]
pub(crate) fn rope_insert(rope: &mut Rope, at: usize, text: &str)
    requires
        at <= rope_text(*old(rope)).len(),
    ensures
        rope_text(*final(rope)) == with_inserted(rope_text(*old(rope)), at as int, text@),
{
    rope.insert(at, text)
}

/// `Rope::slice` on the char range `start..end`, which has to lie inside
/// the rope, copied into a `String`: the chars of that range.
#[verifier::external_body]
pub(crate) fn rope_slice(rope: &Rope, start: usize, end: usize) -> (s: String)
    requires
        start <= end <= rope_text(*rope).len(),
    ensures
        s@ == rope_text(*rope).subrange(start as int, end as int),
{
    String::from(rope.slice(start..end))
}

} // verus!
