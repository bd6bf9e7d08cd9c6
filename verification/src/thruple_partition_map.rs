//! A three-way partition: split a list of three-variant values into three
//! lists, keeping each side's relative order.

use vstd::prelude::*;

verus! {

#[derive(Debug, Clone, Copy, PartialEq, Eq)]
pub enum TernaryVal<L, M, R> {
    Left(L),
    Middle(M),
    Right(R),
}

/// The left values of a list, in order.
pub open spec fn lefts_of<L, M, R>(s: Seq<TernaryVal<L, M, R>>) -> Seq<L>
    decreases s.len(),
{
    if s.len() == 0 {
        Seq::empty()
    } else {
        lefts_of(s.drop_last()) + (match s.last() {
            TernaryVal::Left(v) => seq![v],
            _ => Seq::empty(),
        })
    }
}

/// The middle values of a list, in order.
pub open spec fn middles_of<L, M, R>(s: Seq<TernaryVal<L, M, R>>) -> Seq<M>
    decreases s.len(),
{
    if s.len() == 0 {
        Seq::empty()
    } else {
        middles_of(s.drop_last()) + (match s.last() {
            TernaryVal::Middle(v) => seq![v],
            _ => Seq::empty(),
        })
    }
}

/// The right values of a list, in order.
pub open spec fn rights_of<L, M, R>(s: Seq<TernaryVal<L, M, R>>) -> Seq<R>
    decreases s.len(),
{
    if s.len() == 0 {
        Seq::empty()
    } else {
        rights_of(s.drop_last()) + (match s.last() {
            TernaryVal::Right(v) => seq![v],
            _ => Seq::empty(),
        })
    }
}

/// Split the values into the left, middle and right lists, keeping each
/// side's relative order.
pub fn thruple_partition_map<L, M, R>(items: Vec<TernaryVal<L, M, R>>) -> (r: (
    Vec<L>,
    Vec<M>,
    Vec<R>,
))
    ensures
        r.0@ == lefts_of(items@),
        r.1@ == middles_of(items@),
        r.2@ == rights_of(items@),
{
    let ghost orig = items@;
    let mut rest = items;
    let mut lefts: Vec<L> = Vec::new();
    let mut middles: Vec<M> = Vec::new();
    let mut rights: Vec<R> = Vec::new();
    let ghost mut k: int = 0;
    proof {
        assert(orig.skip(0) =~= orig);
    }
    while rest.len() > 0
        invariant
            0 <= k <= orig.len(),
            rest@ == orig.skip(k),
            lefts@ == lefts_of(orig.take(k)),
            middles@ == middles_of(orig.take(k)),
            rights@ == rights_of(orig.take(k)),
        decreases rest@.len(),
    {
        proof {
            assert(rest@[0] == orig[k]);
            assert(rest@.remove(0) =~= orig.skip(k + 1));
            assert(orig.take(k + 1).drop_last() =~= orig.take(k));
            assert(orig.take(k + 1).last() == orig[k]);
        }
        let val = rest.remove(0);
        match val {
            TernaryVal::Left(v) => {
                lefts.push(v);
            },
            TernaryVal::Middle(v) => {
                middles.push(v);
            },
            TernaryVal::Right(v) => {
                rights.push(v);
            },
        }
        proof {
            k = k + 1;
            assert(lefts@ =~= lefts_of(orig.take(k)));
            assert(middles@ =~= middles_of(orig.take(k)));
            assert(rights@ =~= rights_of(orig.take(k)));
        }
    }
    proof {
        assert(k == orig.len());
        assert(orig.take(k) =~= orig);
    }
    (lefts, middles, rights)
}

} // verus!
