//! A double-ended, exact-size iterator over an inclusive range of
//! characters (Unicode scalar values) that steps over the surrogate block
//! `0xD800..=0xDFFF` in a single move.

use vstd::prelude::*;

pub mod scalar;

use crate::scalar::{
    lemma_back, lemma_front, lemma_len, pred, scalars_in, step, succ, Dir, AFTER_SUR, BEFORE_SUR,
    SUR_END, SUR_START,
};

verus! {

/// An iterator over a linear range of characters, inclusive of both ends.
///
/// Built by [`new`]. It yields from the front with [`Iter::next`] and from
/// the back with [`Iter::next_back`], and knows exactly how many values are
/// left.
pub struct Iter {
    start: char,
    end: char,
    finished: bool,
}

impl Iter {
    /// While values remain, `start` and `end` are the next ones to yield
    /// from the front and from the back.
    #[verifier::type_invariant]
    spec fn inv(&self) -> bool {
        self.finished || self.start <= self.end
    }
}

impl View for Iter {
    type V = Seq<char>;

    /// The values still to be yielded, in ascending order.
    closed spec fn view(&self) -> Seq<char> {
        if self.finished {
            Seq::empty()
        } else {
            scalars_in(self.start as int, self.end as int)
        }
    }
}

/// Creates an iterator over the characters (Unicode scalar values) from
/// `start` to `end`, inclusive.
pub fn new(start: char, end: char) -> (r: Iter)
    requires
        start <= end,
    ensures
        r@ == scalars_in(start as int, end as int),
{
    Iter { start: start, end: end, finished: false }
}

/// Like [`new`], but refuses a window whose `start` lies above its `end`.
pub fn try_new(start: char, end: char) -> (r: Option<Iter>)
    ensures
        r is None <==> start > end,
        r is Some ==> r->0@ == scalars_in(start as int, end as int),
{
    if start <= end {
        Some(new(start, end))
    } else {
        None
    }
}

impl Iter {
    /// Yields the smallest value not yet yielded, or `None` once every value
    /// has been yielded.
    pub fn next(&mut self) -> (r: Option<char>)
        ensures
            old(self)@.len() == 0 ==> r is None && final(self)@ == old(self)@,
            old(self)@.len() > 0 ==> r == Some(old(self)@[0]) && final(self)@ == old(self)@.drop_first(),
    {
        proof { use_type_invariant(&*self); }
        if self.finished {
            return None;
        }
        let ret = Some(self.start);
        proof { lemma_front(self.start as int, self.end as int); }
        if self.start == self.end {
            self.finished = true;
            proof { assert(scalars_in(succ(self.start as int), self.end as int) =~= Seq::<char>::empty()); }
        } else {
            self.start = step(self.start, Dir::Forward);
        }
        ret
    }

    /// Yields the largest value not yet yielded, or `None` once every value
    /// has been yielded.
    pub fn next_back(&mut self) -> (r: Option<char>)
        ensures
            old(self)@.len() == 0 ==> r is None && final(self)@ == old(self)@,
            old(self)@.len() > 0 ==> r == Some(old(self)@.last()) && final(self)@ == old(self)@.drop_last(),
    {
        proof { use_type_invariant(&*self); }
        if self.finished {
            return None;
        }
        let ret = Some(self.end);
        proof { lemma_back(self.start as int, self.end as int); }
        if self.start == self.end {
            self.finished = true;
            proof { assert(scalars_in(self.start as int, pred(self.end as int)) =~= Seq::<char>::empty()); }
        } else {
            self.end = step(self.end, Dir::Backward);
        }
        ret
    }

    /// The exact number of values left, as a lower and an upper bound that
    /// are equal.
    pub fn size_hint(&self) -> (r: (usize, Option<usize>))
        ensures
            r.0 == self@.len(),
            r.1 == Some(r.0),
    {
        proof { use_type_invariant(self); }
        let len: usize = if self.finished {
            0
        } else {
            let start = self.start as u32;
            let end = self.end as u32;
            proof { lemma_len(start as int, end as int); }
            let naive_count = (end - start + 1) as usize;
            if start <= BEFORE_SUR && end >= AFTER_SUR {
                naive_count - (SUR_END - SUR_START + 1) as usize
            } else {
                naive_count
            }
        };
        (len, Some(len))
    }

    /// The exact number of values left.
    pub fn len(&self) -> (r: usize)
        ensures
            r == self@.len(),
    {
        self.size_hint().0
    }

    /// Drains the iterator from the front: every value left, ascending.
    pub fn into_vec(self) -> (r: Vec<char>)
        ensures
            r@ == self@,
    {
        let mut it = self;
        let mut v: Vec<char> = Vec::new();
        loop
            invariant
                v@ + it@ == self@,
            ensures
                v@ == self@,
            decreases it@.len(),
        {
            match it.next() {
                Some(c) => {
                    v.push(c);
                    assert(v@ + it@ =~= self@);
                },
                None => {
                    assert(v@ =~= self@);
                    break;
                },
            }
        }
        v
    }

    /// Drains the iterator from the back: every value left, descending.
    pub fn into_rev_vec(self) -> (r: Vec<char>)
        ensures
            r@ == self@.reverse(),
    {
        let mut it = self;
        let mut v: Vec<char> = Vec::new();
        loop
            invariant
                v@ + it@.reverse() == self@.reverse(),
            ensures
                v@ == self@.reverse(),
            decreases it@.len(),
        {
            let ghost before = it@;
            match it.next_back() {
                Some(c) => {
                    v.push(c);
                    assert(before.reverse() =~= seq![c] + it@.reverse());
                    assert(v@ + it@.reverse() =~= self@.reverse());
                },
                None => {
                    assert(v@ =~= self@.reverse());
                    break;
                },
            }
        }
        v
    }
}

} // verus!
