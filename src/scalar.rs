//! Unicode scalar values as integers, the ascending enumeration of a window
//! of them, and the one-step moves across the surrogate block.

use vstd::prelude::*;

verus! {

/// First code point of the surrogate block.
pub(crate) const SUR_START: u32 = 0xD800;

/// Last code point of the surrogate block.
pub(crate) const SUR_END: u32 = 0xDFFF;

/// The scalar value just below the surrogate block.
pub(crate) const BEFORE_SUR: u32 = 0xD7FF;

/// The scalar value just above the surrogate block.
pub(crate) const AFTER_SUR: u32 = 0xE000;

/// Whether `v` is a Unicode scalar value: a code point outside the
/// surrogate block.
pub open spec fn is_scalar(v: int) -> bool {
    (0 <= v <= 0xD7FF) || (0xE000 <= v <= 0x10FFFF)
}

/// Relies on `char::from_u32`: `Some(c)` with `c as u32 == i` exactly when
/// `i` is a Unicode scalar value, `None` otherwise.
pub assume_specification[ core::char::from_u32 ](i: u32) -> (r: Option<char>)
    ensures
        is_scalar(i as int) ==> r == Some(i as char),
        !is_scalar(i as int) ==> r is None,
;

/// Every `char` is a Unicode scalar value.
pub proof fn lemma_char_is_scalar(c: char)
    ensures
        is_scalar(c as int),
{
}

/// All Unicode scalar values `v` with `lo <= v <= hi`, in ascending order.
pub open spec fn scalars_in(lo: int, hi: int) -> Seq<char>
    decreases hi - lo + 1,
{
    if hi < lo {
        Seq::empty()
    } else if is_scalar(lo) {
        seq![lo as char] + scalars_in(lo + 1, hi)
    } else {
        scalars_in(lo + 1, hi)
    }
}

/// Number of surrogate code points `v` with `lo <= v <= hi`.
pub open spec fn surrogates_in(lo: int, hi: int) -> int {
    let a = if lo > 0xD800 { lo } else { 0xD800 };
    let b = if hi < 0xDFFF { hi } else { 0xDFFF };
    if b < a { 0 } else { b - a + 1 }
}

/// Taking the top code point off a non-empty window.
proof fn lemma_pop_last(lo: int, hi: int)
    requires
        lo <= hi,
    ensures
        scalars_in(lo, hi) == (if is_scalar(hi) {
            scalars_in(lo, hi - 1).push(hi as char)
        } else {
            scalars_in(lo, hi - 1)
        }),
    decreases hi - lo,
{
    if lo < hi {
        lemma_pop_last(lo + 1, hi);
        if is_scalar(lo) {
            assert(scalars_in(lo, hi - 1) == seq![lo as char] + scalars_in(lo + 1, hi - 1));
            if is_scalar(hi) {
                assert(scalars_in(lo, hi) =~= scalars_in(lo, hi - 1).push(hi as char));
            }
        }
    } else {
        assert(scalars_in(lo + 1, hi) =~= Seq::<char>::empty());
        assert(scalars_in(lo, hi - 1) =~= Seq::<char>::empty());
        if is_scalar(hi) {
            assert(scalars_in(lo, hi) =~= seq![hi as char]);
        }
    }
}

/// A window that starts inside the surrogate block holds what the window
/// starting just above the block holds.
proof fn lemma_skip_up(lo: int, hi: int)
    requires
        0xD800 <= lo <= 0xE000,
    ensures
        scalars_in(lo, hi) == scalars_in(0xE000, hi),
    decreases 0xE000 - lo,
{
    if lo < 0xE000 {
        lemma_skip_up(lo + 1, hi);
    }
}

/// A window that ends inside the surrogate block holds what the window
/// ending just below the block holds.
proof fn lemma_skip_down(lo: int, hi: int)
    requires
        0xD7FF <= hi <= 0xDFFF,
        lo <= 0xD7FF,
    ensures
        scalars_in(lo, hi) == scalars_in(lo, 0xD7FF),
    decreases hi - 0xD7FF,
{
    if hi > 0xD7FF {
        lemma_pop_last(lo, hi);
        lemma_skip_down(lo, hi - 1);
    }
}

/// The front of a window of scalar values is its lower bound, and the rest
/// starts at the next scalar value.
pub proof fn lemma_front(lo: int, hi: int)
    requires
        is_scalar(lo),
        is_scalar(hi),
        lo <= hi,
    ensures
        scalars_in(lo, hi) == seq![lo as char] + scalars_in(succ(lo), hi),
{
    if lo == 0xD7FF {
        lemma_skip_up(lo + 1, hi);
    }
}

/// The back of a window of scalar values is its upper bound, and the rest
/// ends at the previous scalar value.
pub proof fn lemma_back(lo: int, hi: int)
    requires
        is_scalar(lo),
        is_scalar(hi),
        lo <= hi,
    ensures
        scalars_in(lo, hi) == scalars_in(lo, pred(hi)).push(hi as char),
{
    lemma_pop_last(lo, hi);
    if hi == 0xE000 {
        if lo <= 0xD7FF {
            lemma_skip_down(lo, 0xDFFF);
        } else {
            assert(scalars_in(lo, 0xDFFF) =~= Seq::<char>::empty());
            assert(scalars_in(lo, 0xD7FF) =~= Seq::<char>::empty());
        }
    }
}

/// A window of code points holds as many scalar values as it holds code
/// points, less the surrogates among them.
pub proof fn lemma_len(lo: int, hi: int)
    requires
        lo - 1 <= hi,
    ensures
        0 <= lo && hi <= 0x10FFFF ==> scalars_in(lo, hi).len() == (hi - lo + 1) - surrogates_in(lo, hi),
    decreases hi - lo + 1,
{
    if lo <= hi {
        lemma_pop_last(lo, hi);
        lemma_len(lo, hi - 1);
    }
}

/// All Unicode scalar values `v` with `lo <= v <= hi`, in descending order.
pub open spec fn scalars_desc(hi: int, lo: int) -> Seq<char>
    decreases hi - lo + 1,
{
    if hi < lo {
        Seq::empty()
    } else if is_scalar(hi) {
        seq![hi as char] + scalars_desc(hi - 1, lo)
    } else {
        scalars_desc(hi - 1, lo)
    }
}

/// Counting down a window gives what counting it up gives, reversed.
pub proof fn lemma_reverse_symmetry(start: char, end: char)
    ensures
        scalars_desc(end as int, start as int) == scalars_in(start as int, end as int).reverse(),
{
    lemma_desc_is_reverse(start as int, end as int);
}

proof fn lemma_desc_is_reverse(lo: int, hi: int)
    ensures
        scalars_desc(hi, lo) == scalars_in(lo, hi).reverse(),
    decreases hi - lo + 1,
{
    if lo <= hi {
        lemma_pop_last(lo, hi);
        lemma_desc_is_reverse(lo, hi - 1);
        if is_scalar(hi) {
            assert(scalars_in(lo, hi).reverse() =~= seq![hi as char] + scalars_in(lo, hi - 1).reverse());
        }
    } else {
        assert(scalars_in(lo, hi).reverse() =~= Seq::<char>::empty());
    }
}

/// A non-empty window yields its lower bound first and its upper bound last.
pub proof fn lemma_inclusive_bounds(start: char, end: char)
    requires
        start <= end,
    ensures
        scalars_in(start as int, end as int).len() > 0,
        scalars_in(start as int, end as int)[0] == start,
        scalars_in(start as int, end as int).last() == end,
{
    lemma_front(start as int, end as int);
    lemma_back(start as int, end as int);
}

/// A window yields, in strictly ascending order, exactly the scalar values
/// between its bounds; in particular never a surrogate code point.
pub proof fn lemma_members(lo: int, hi: int)
    ensures
        forall|i: int|
            0 <= i < scalars_in(lo, hi).len() ==> {
                let v = #[trigger] scalars_in(lo, hi)[i] as int;
                &&& lo <= v <= hi
                &&& is_scalar(v)
                &&& !(0xD800 <= v <= 0xDFFF)
            },
        forall|c: char| lo <= c as int <= hi ==> #[trigger] scalars_in(lo, hi).contains(c),
        forall|i: int, j: int|
            0 <= i < j < scalars_in(lo, hi).len() ==> (scalars_in(lo, hi)[i] as int) < (
            scalars_in(lo, hi)[j] as int),
    decreases hi - lo + 1,
{
    if lo <= hi {
        lemma_members(lo + 1, hi);
        let s = scalars_in(lo, hi);
        let t = scalars_in(lo + 1, hi);
        if is_scalar(lo) {
            assert(s == seq![lo as char] + t);
            assert forall|c: char| lo <= c as int <= hi implies #[trigger] s.contains(c) by {
                if c as int == lo {
                    assert(s[0] == c);
                } else {
                    assert(t.contains(c));
                    let k = choose|k: int| 0 <= k < t.len() && t[k] == c;
                    assert(s[k + 1] == c);
                }
            }
            assert forall|i: int, j: int| 0 <= i < j < s.len() implies (s[i] as int) < (
            s[j] as int) by {
                if i > 0 {
                    assert(s[i] == t[i - 1]);
                }
                assert(s[j] == t[j - 1]);
            }
        } else {
            assert forall|c: char| lo <= c as int <= hi implies #[trigger] s.contains(c) by {
                lemma_char_is_scalar(c);
                assert(t.contains(c));
            }
        }
    }
}

/// The number of values in a window of scalar values: its span, less the
/// whole surrogate block when the window straddles it.
pub proof fn lemma_count(start: char, end: char)
    requires
        start <= end,
    ensures
        scalars_in(start as int, end as int).len() == (end as int - start as int + 1) - (if start
            <= 0xD7FF && end >= 0xE000 {
            0x800int
        } else {
            0int
        }),
{
    lemma_len(start as int, end as int);
}

/// Which way a step moves through the scalar values.
pub(crate) enum Dir {
    Forward,
    Backward,
}

/// The scalar value after `c` in ascending order.
pub open spec fn succ(c: int) -> int {
    if c == 0xD7FF { 0xE000 } else { c + 1 }
}

/// The scalar value before `c` in ascending order.
pub open spec fn pred(c: int) -> int {
    if c == 0xE000 { 0xD7FF } else { c - 1 }
}

/// Moves `c` one scalar value up or down, jumping the surrogate block in a
/// single step. The caller keeps off the top and the bottom of the domain.
pub(crate) fn step(c: char, d: Dir) -> (r: char)
    requires
        d is Forward ==> (c as u32) < 0x10FFFF,
        d is Backward ==> (c as u32) > 0,
    ensures
        d is Forward ==> r as int == succ(c as int),
        d is Backward ==> r as int == pred(c as int),
{
    let val = c as u32;
    let new_val = match d {
        Dir::Forward => if val == BEFORE_SUR { AFTER_SUR } else { val + 1 },
        Dir::Backward => if val == AFTER_SUR { BEFORE_SUR } else { val - 1 },
    };
    // `new_val` is a scalar value by the step rule, so the `None` arm is
    // never taken; the postcondition proves it.
    match core::char::from_u32(new_val) {
        Some(r) => r,
        None => c,
    }
}

} // verus!
