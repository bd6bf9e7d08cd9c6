//! A search-result container with exactly three shapes: no match, one match,
//! or two matches. Merging two results keeps the first two hits found, which
//! mirrors the board invariant that at most two concrete cards can ever
//! match one descriptor.

use vstd::prelude::*;

verus! {

/// The first two elements of a sequence (the whole sequence when it is
/// already that short).
pub open spec fn first_two<T>(s: Seq<T>) -> Seq<T> {
    if s.len() <= 2 {
        s
    } else {
        s.subrange(0, 2)
    }
}

#[derive(Debug, PartialEq, Eq, Clone, Copy)]
pub enum Ternary<T> {
    Zero,
    One(T),
    Two(T, T),
}

impl<T> View for Ternary<T> {
    type V = Seq<T>;

    open spec fn view(&self) -> Seq<T> {
        match self {
            Ternary::Zero => Seq::empty(),
            Ternary::One(a) => seq![*a],
            Ternary::Two(a, b) => seq![*a, *b],
        }
    }
}

impl<T> Ternary<T> {
    /// Concatenate two results and re-classify the union, capped at two
    /// hits: the first two encountered are kept.
    pub fn and(self, other: Self) -> (r: Self)
        ensures
            r@ == first_two(self@ + other@),
    {
        let r = match (self, other) {
            (Ternary::Zero, o) => o,
            (Ternary::One(a), Ternary::Zero) => Ternary::One(a),
            (Ternary::One(a), Ternary::One(b)) => Ternary::Two(a, b),
            (Ternary::One(a), Ternary::Two(b, _)) => Ternary::Two(a, b),
            (Ternary::Two(a, b), _) => Ternary::Two(a, b),
        };
        proof {
            assert(r@ =~= first_two(self@ + other@));
        }
        r
    }

    /// Merge in a second result only when this one is already saturated;
    /// an unsaturated result is returned unchanged.
    pub fn and_then(self, other: Self) -> (r: Self)
        ensures
            self@.len() == 2 ==> r@ == first_two(self@ + other@),
            self@.len() < 2 ==> r == self,
    {
        match self {
            Ternary::Two(a, b) => Ternary::Two(a, b).and(other),
            not_saturated => not_saturated,
        }
    }
}

/// A hand-rolled iterator over the at-most-two hits of a `Ternary`.
pub struct IntoIter<T> {
    fst: Option<T>,
    snd: Option<T>,
    pointer: usize,
}

impl<T> IntoIter<T> {
    pub closed spec fn wf(&self) -> bool {
        &&& self.pointer <= 2
        &&& (self.pointer == 0 && self.fst is None ==> self.snd is None)
        &&& (self.pointer >= 1 ==> self.fst is None)
        &&& (self.pointer >= 2 ==> self.snd is None)
    }

    /// The hits not yet handed out, front first.
    pub closed spec fn remaining(&self) -> Seq<T> {
        match (self.fst, self.snd) {
            (Some(a), Some(b)) => seq![a, b],
            (Some(a), None) => seq![a],
            (None, Some(b)) => seq![b],
            (None, None) => Seq::empty(),
        }
    }

    pub fn new_none() -> (r: Self)
        ensures
            r.wf(),
            r.remaining() == Seq::<T>::empty(),
    {
        IntoIter { fst: None, snd: None, pointer: 0 }
    }

    pub fn new_one(fst: T) -> (r: Self)
        ensures
            r.wf(),
            r.remaining() == seq![fst],
    {
        IntoIter { fst: Some(fst), snd: None, pointer: 0 }
    }

    pub fn new_two(fst: T, snd: T) -> (r: Self)
        ensures
            r.wf(),
            r.remaining() == seq![fst, snd],
    {
        IntoIter { fst: Some(fst), snd: Some(snd), pointer: 0 }
    }
}

impl<T: Copy> IntoIter<T> {
    pub fn next(&mut self) -> (r: Option<T>)
        requires
            old(self).wf(),
        ensures
            final(self).wf(),
            old(self).remaining().len() == 0 ==> r is None && final(self).remaining()
                == old(self).remaining(),
            old(self).remaining().len() > 0 ==> r == Some(old(self).remaining()[0])
                && final(self).remaining() =~= old(self).remaining().skip(1),
    {
        if self.pointer == 0 && self.fst.is_some() {
            self.pointer = 1;
            let out = self.fst;
            self.fst = None;
            out
        } else if self.pointer <= 1 && self.snd.is_some() {
            self.pointer = 2;
            let out = self.snd;
            self.snd = None;
            out
        } else {
            None
        }
    }
}

impl<T: Copy> Ternary<T> {
    pub fn into_iter(self) -> (r: IntoIter<T>)
        ensures
            r.wf(),
            r.remaining() == self@,
    {
        match self {
            Ternary::Zero => IntoIter::new_none(),
            Ternary::One(fst) => IntoIter::new_one(fst),
            Ternary::Two(fst, snd) => IntoIter::new_two(fst, snd),
        }
    }
}

} // verus!
