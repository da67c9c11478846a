//! Whitespace insensitivity of the grammar.
//!
//! The grammar admits insignificant whitespace in exactly two places: at
//! the two sides of every element (the production wrapping each value
//! inside arrays and objects) and around every object key.  The lemmas
//! here state that filling those slots with extra whitespace never
//! changes what is parsed: the production consumes the inserted run and
//! returns the same model value, or fails with the same error.

use vstd::prelude::*;

use crate::ast::{ErrKind, GMember, GValue};
use crate::grammar::{is_ws_byte, spec_element, spec_member, ws_len};

verus! {

/// Every byte of `w` is insignificant whitespace.
pub open spec fn all_ws(w: Seq<u8>) -> bool {
    forall|i: int| 0 <= i < w.len() ==> is_ws_byte(#[trigger] w[i])
}

/// The whitespace run at the head of a sequence never outruns it.
pub proof fn lemma_ws_len_le(s: Seq<u8>)
    ensures
        ws_len(s) <= s.len(),
    decreases s.len(),
{
    if s.len() > 0 && is_ws_byte(s[0]) {
        lemma_ws_len_le(s.skip(1));
    }
}

/// Prepending a whitespace run lengthens the leading whitespace by
/// exactly that run.
pub proof fn lemma_ws_len_prepend(w: Seq<u8>, s: Seq<u8>)
    requires
        all_ws(w),
    ensures
        ws_len(w + s) == w.len() + ws_len(s),
    decreases w.len(),
{
    if w.len() == 0 {
        assert(w + s =~= s);
    } else {
        assert((w + s)[0] == w[0]);
        assert((w + s).skip(1) =~= w.skip(1) + s);
        lemma_ws_len_prepend(w.skip(1), s);
    }
}

/// Skipping past the prepended run and `k` more lands where skipping `k`
/// lands in the original.
proof fn lemma_skip_prepend(w: Seq<u8>, s: Seq<u8>, k: int)
    requires
        0 <= k <= s.len(),
    ensures
        (w + s).skip(w.len() + k) == s.skip(k),
{
    assert((w + s).skip(w.len() as int + k) =~= s.skip(k));
}

/// Extra whitespace before an element is insignificant: the element
/// production on `w + s` consumes the run and otherwise behaves as on
/// `s` — the same value on success, the same error kind on failure.
pub proof fn lemma_element_ws_insensitive(w: Seq<u8>, s: Seq<u8>)
    requires
        all_ws(w),
    ensures
        match spec_element(s) {
            Ok((n, v)) => spec_element(w + s) == Ok::<_, ErrKind>(((w.len() + n) as nat, v)),
            Err(e) => spec_element(w + s) == Err::<(nat, GValue), _>(e),
        },
{
    let u = w + s;
    lemma_ws_len_prepend(w, s);
    lemma_ws_len_le(s);
    let w0 = ws_len(s);
    lemma_skip_prepend(w, s, w0 as int);
    assert(u.skip(ws_len(u) as int) == s.skip(w0 as int));
}

/// Extra whitespace before an object member is insignificant, in the
/// same sense: the member production on `w + s` consumes the run and
/// otherwise behaves as on `s`.
pub proof fn lemma_member_ws_insensitive(w: Seq<u8>, s: Seq<u8>)
    requires
        all_ws(w),
    ensures
        match spec_member(s) {
            Ok((n, m)) => spec_member(w + s) == Ok::<_, ErrKind>(((w.len() + n) as nat, m)),
            Err(e) => spec_member(w + s) == Err::<(nat, GMember), _>(e),
        },
{
    let u = w + s;
    lemma_ws_len_prepend(w, s);
    lemma_ws_len_le(s);
    let w0 = ws_len(s);
    lemma_skip_prepend(w, s, w0 as int);
    assert(u.skip(ws_len(u) as int) == s.skip(w0 as int));
}

} // verus!
