//! The foundation: four per-suit ascending build piles, the game's win
//! condition target. Placement is legal on an empty stack unconditionally,
//! or on a non-empty stack whose top is of the same suit and exactly one
//! rank below the candidate.

use vstd::prelude::*;

use crate::card::{foundation_pair_spec, Card, ProximateCard, ShownCard};
use crate::counting::{
    all_wf, count_matches, count_matches_cols, lemma_count_matches_cols_skip_step,
    lemma_count_matches_push,
};
use crate::error::GameError;
use crate::game::CardLocation;
use crate::pickables::{CardMove, FindProxPair, HoldsCard, PickableCard};
use crate::ternary::Ternary;

verus! {

pub const NUMBER_OF_FOUNDATION_STACKS: usize = 4;

/// A position inside one foundation stack: how many cards sit above the
/// target (`depth`), remembered together with the stack size at the moment
/// of computation.
#[derive(Debug, Clone, Copy, PartialEq, Eq, Structural)]
pub struct FoundationDepth {
    pub foundation_size: usize,
    pub depth: usize,
}

impl FoundationDepth {
    /// The index of the target card counted from the bottom of the stack.
    pub fn depth_index(&self) -> (r: usize)
        requires
            self.depth <= self.foundation_size,
        ensures
            r == self.foundation_size - self.depth,
    {
        self.foundation_size - self.depth
    }
}

#[derive(Debug, Clone, Copy, PartialEq, Eq, Structural)]
pub struct FoundationPosition(pub usize);

#[derive(Debug, PartialEq, Eq, Clone, Copy, Structural)]
pub struct FoundationCardLocation(pub FoundationPosition, pub FoundationDepth);

impl FoundationCardLocation {
    pub fn get_distance(&self) -> (r: usize)
        ensures
            r == self.1.depth,
    {
        self.1.depth
    }

    pub fn position(&self) -> (r: FoundationPosition)
        ensures
            r == self.0,
    {
        self.0
    }
}

/// One foundation pile: its fixed position and its cards, bottom first.
#[derive(Debug)]
pub struct FoundationStack(pub FoundationPosition, pub Vec<Card>);

impl FoundationStack {
    pub fn new(position: usize) -> (r: Self)
        ensures
            r.0 == FoundationPosition(position),
            r.1@ =~= Seq::<Card>::empty(),
    {
        FoundationStack(FoundationPosition(position), Vec::new())
    }

    pub fn get_top_card(&self) -> (r: Option<Card>)
        ensures
            match r {
                Some(c) => self.1@.len() > 0 && c == self.1@.last(),
                None => self.1@.len() == 0,
            },
    {
        if self.1.len() > 0 {
            Some(self.1[self.1.len() - 1])
        } else {
            None
        }
    }

    pub fn len(&self) -> (r: usize)
        ensures
            r == self.1@.len(),
    {
        self.1.len()
    }

    /// The top-down position of this stack's topmost card matching the
    /// descriptor, or none when no card matches.
    pub fn find_card(&self, f_card: &ProximateCard) -> (r: Option<FoundationDepth>)
        ensures
            match r {
                Some(d) => d.foundation_size == self.1@.len() && d.depth < self.1@.len()
                    && self.1@[self.1@.len() - 1 - d.depth].matches_spec(*f_card) && forall|k: int|
                    0 <= k < d.depth ==> !(#[trigger] self.1@[self.1@.len() - 1 - k]).matches_spec(
                        *f_card,
                    ),
                None => forall|k: int|
                    0 <= k < self.1@.len() ==> !(#[trigger] self.1@[k]).matches_spec(*f_card),
            },
    {
        let n = self.1.len();
        let mut depth: usize = 0;
        while depth < n
            invariant
                n == self.1@.len(),
                depth <= n,
                forall|k: int|
                    0 <= k < depth ==> !(#[trigger] self.1@[self.1@.len() - 1 - k]).matches_spec(
                        *f_card,
                    ),
            decreases n - depth,
        {
            if self.1[n - 1 - depth].matches_prox_card(f_card) {
                return Some(FoundationDepth { foundation_size: n, depth });
            }
            depth = depth + 1;
        }
        proof {
            assert forall|k: int|
                0 <= k < self.1@.len() implies !(#[trigger] self.1@[k]).matches_spec(*f_card) by {
                let kk = self.1@.len() - 1 - k;
                assert(!(self.1@[self.1@.len() - 1 - kk]).matches_spec(*f_card));
            }
        }
        None
    }

    /// All (at most two) top-down positions of cards matching the
    /// descriptor, shallowest first.
    pub fn find_equivalent_pair(&self, prox_card: &ProximateCard) -> (r: Ternary<FoundationDepth>)
        ensures
            r@.len() == vstd::math::min(2, count_matches(self.1@, *prox_card) as int),
            forall|j: int|
                0 <= j < r@.len() ==> {
                    let d = #[trigger] r@[j];
                    d.foundation_size == self.1@.len() && d.depth < self.1@.len()
                        && self.1@[self.1@.len() - 1 - d.depth].matches_spec(*prox_card)
                },
            r@.len() == 2 ==> r@[0].depth < r@[1].depth,
    {
        let n = self.1.len();
        let ghost total = count_matches(self.1@, *prox_card);
        let mut found: Ternary<FoundationDepth> = Ternary::Zero;
        let ghost mut seen: nat = 0;
        let mut depth: usize = 0;
        proof {
            assert(self.1@.take(n as int) =~= self.1@);
        }
        while depth < n
            invariant
                n == self.1@.len(),
                depth <= n,
                total == count_matches(self.1@, *prox_card),
                seen + count_matches(self.1@.take(n - depth), *prox_card) == total,
                seen == 0 ==> found is Zero,
                seen == 1 ==> found is One,
                seen >= 2 ==> found is Two,
                found matches Ternary::One(a) ==> a.foundation_size == n && a.depth < depth
                    && self.1@[n - 1 - a.depth].matches_spec(*prox_card),
                found matches Ternary::Two(a, b) ==> a.foundation_size == n && a.depth < depth
                    && self.1@[n - 1 - a.depth].matches_spec(*prox_card) && b.foundation_size == n
                    && b.depth < depth && self.1@[n - 1 - b.depth].matches_spec(*prox_card)
                    && a.depth < b.depth,
            decreases n - depth,
        {
            proof {
                assert(self.1@.take(n - depth) =~= self.1@.take(n - depth - 1).push(
                    self.1@[n - 1 - depth],
                ));
                lemma_count_matches_push(
                    self.1@.take(n - depth - 1),
                    self.1@[n - 1 - depth],
                    *prox_card,
                );
            }
            if self.1[n - 1 - depth].matches_prox_card(prox_card) {
                proof {
                    seen = seen + 1;
                }
                let d = FoundationDepth { foundation_size: n, depth };
                match found {
                    Ternary::Zero => {
                        found = Ternary::One(d);
                    },
                    Ternary::One(fst) => {
                        found = Ternary::Two(fst, d);
                    },
                    Ternary::Two(_, _) => {},
                }
            }
            depth = depth + 1;
        }
        proof {
            assert(self.1@.take(0) =~= Seq::<Card>::empty());
            match found {
                Ternary::Zero => {
                    assert(found@.len() == 0);
                },
                Ternary::One(a) => {
                    assert(found@ =~= seq![a]);
                },
                Ternary::Two(a, b) => {
                    assert(found@ =~= seq![a, b]);
                },
            }
        }
        found
    }

    /// The classic ace-up rule: same suit, exactly one rank above the top.
    pub fn is_playable_pair(parent: &Card, child: &Card) -> (r: bool)
        requires
            parent.wf(),
        ensures
            r == foundation_pair_spec(*parent, *child),
    {
        parent.is_same_pack(child) && parent.is_playable_pair_smaller(child)
    }
}

impl HoldsCard for FoundationStack {
    open spec fn held(&self) -> Seq<Card> {
        self.1@
    }

    open spec fn wf(&self) -> bool {
        &&& self.0.0 < NUMBER_OF_FOUNDATION_STACKS
        &&& all_wf(self.1@)
    }

    open spec fn pos_id(&self) -> int {
        self.0.0 as int
    }

    /// Placement is legal on an empty stack, or when the candidate is of
    /// the same suit as, and exactly one rank above, the current top.
    open spec fn accepts_card(&self, card: Card) -> bool {
        self.1@.len() == 0 || foundation_pair_spec(self.1@.last(), card)
    }

    open spec fn top_location(&self) -> CardLocation {
        CardLocation::Foundation(
            FoundationCardLocation(
                self.0,
                FoundationDepth { foundation_size: self.1@.len() as usize, depth: 0 },
            ),
        )
    }

    open spec fn empty_pick_error(&self) -> GameError {
        GameError::TriedToPickEmptyFoundationStack
    }

    open spec fn may_receive(&self) -> bool {
        true
    }

    fn try_get_card_pick(&self) -> (r: Option<PickableCard>) {
        match self.get_top_card() {
            Some(card) => {
                let size = self.1.len();
                Some(
                    PickableCard::new(
                        &card,
                        CardLocation::Foundation(
                            FoundationCardLocation(
                                self.0,
                                FoundationDepth { foundation_size: size, depth: 0 },
                            ),
                        ),
                    ),
                )
            },
            None => None,
        }
    }

    fn try_get_card_move(&self, picked_card: &PickableCard) -> (r: Option<CardMove>) {
        let legal = match self.get_top_card() {
            Some(top) => FoundationStack::is_playable_pair(&top, &picked_card.0),
            None => true,
        };
        if legal {
            let size = self.1.len();
            Some(
                CardMove::new(
                    picked_card,
                    CardLocation::Foundation(
                        FoundationCardLocation(
                            self.0,
                            FoundationDepth { foundation_size: size, depth: 0 },
                        ),
                    ),
                ),
            )
        } else {
            None
        }
    }

    fn pick_card(&mut self) -> (r: Result<Card, GameError>) {
        if self.1.len() == 0 {
            return Err(GameError::TriedToPickEmptyFoundationStack);
        }
        match self.1.pop() {
            Some(card) => {
                proof {
                    assert(self.1@ =~= old(self).1@.drop_last());
                }
                Ok(card)
            },
            None => {
                proof {
                    assert(false);
                }
                Err(GameError::TriedToPickEmptyFoundationStack)
            },
        }
    }
}

impl FoundationStack {
    /// Put a card on top of this pile, unconditionally.
    pub(crate) fn place_card(&mut self, card: Card)
        ensures
            final(self).0 == old(self).0,
            final(self).1@ == old(self).1@.push(card),
    {
        self.1.push(card);
    }

    /// Atomically pick from the other holder and place here; fails only
    /// when the pick fails, with no partial mutation.
    pub fn take_card_from<F: HoldsCard>(&mut self, from: &mut F) -> (r: Result<(), GameError>)
        requires
            old(self).wf(),
            old(from).wf(),
        ensures
            final(self).wf(),
            final(from).wf(),
            final(self).0 == old(self).0,
            final(from).pos_id() == old(from).pos_id(),
            match r {
                Ok(()) => old(from).held().len() > 0
                    && final(from).held() == old(from).held().drop_last()
                    && final(self).1@ == old(self).1@.push(old(from).held().last()),
                Err(e) => *final(self) == *old(self) && *final(from) == *old(from)
                    && old(from).held().len() == 0 && e == old(from).empty_pick_error(),
            },
    {
        match from.pick_card() {
            Ok(card) => {
                self.1.push(card);
                Ok(())
            },
            Err(e) => Err(e),
        }
    }
}

/// The whole foundation row.
#[derive(Debug)]
pub struct Foundation(pub Vec<FoundationStack>);

/// The expected pick list of a row of piles: one pick of the top card per
/// non-empty pile, in pile order, each at distance zero.
pub open spec fn foundation_picks(stacks: Seq<Seq<Card>>) -> Seq<PickableCard>
    decreases stacks.len(),
{
    if stacks.len() == 0 {
        Seq::empty()
    } else {
        foundation_picks(stacks.drop_last()) + (if stacks.last().len() == 0 {
            Seq::empty()
        } else {
            seq![
                PickableCard(
                    stacks.last().last(),
                    CardLocation::Foundation(
                        FoundationCardLocation(
                            FoundationPosition((stacks.len() - 1) as usize),
                            FoundationDepth {
                                foundation_size: stacks.last().len() as usize,
                                depth: 0,
                            },
                        ),
                    ),
                ),
            ]
        })
    }
}

/// The expected put list of a row of piles for one pick: one legal move
/// per pile that accepts the picked card, in pile order.
pub open spec fn foundation_puts(stacks: Seq<Seq<Card>>, pick: PickableCard) -> Seq<CardMove>
    decreases stacks.len(),
{
    if stacks.len() == 0 {
        Seq::empty()
    } else {
        foundation_puts(stacks.drop_last(), pick) + (if stacks.last().len() == 0
            || foundation_pair_spec(stacks.last().last(), pick.0) {
            seq![
                CardMove {
                    card: pick.0,
                    from: pick.1,
                    to: CardLocation::Foundation(
                        FoundationCardLocation(
                            FoundationPosition((stacks.len() - 1) as usize),
                            FoundationDepth {
                                foundation_size: stacks.last().len() as usize,
                                depth: 0,
                            },
                        ),
                    ),
                },
            ]
        } else {
            Seq::empty()
        })
    }
}

impl Foundation {
    /// What each pile holds, in pile order, bottom first.
    pub open spec fn stacks_view(&self) -> Seq<Seq<Card>> {
        self.0@.map_values(|st: FoundationStack| st.1@)
    }

    pub open spec fn wf(&self) -> bool {
        &&& self.0@.len() == NUMBER_OF_FOUNDATION_STACKS
        &&& forall|i: int| 0 <= i < self.0@.len() ==> (#[trigger] self.0@[i]).0.0 == i
        &&& forall|i: int| 0 <= i < self.0@.len() ==> all_wf((#[trigger] self.0@[i]).1@)
    }

    pub fn new() -> (r: Self)
        ensures
            r.wf(),
            r.stacks_view().len() == NUMBER_OF_FOUNDATION_STACKS,
            forall|i: int| 0 <= i < r.stacks_view().len() ==> r.stacks_view()[i].len() == 0,
    {
        let mut stacks: Vec<FoundationStack> = Vec::new();
        stacks.push(FoundationStack::new(0));
        stacks.push(FoundationStack::new(1));
        stacks.push(FoundationStack::new(2));
        stacks.push(FoundationStack::new(3));
        Foundation(stacks)
    }

    /// All currently liftable picks: the top card of every non-empty pile.
    #[verifier::rlimit(60)]
    pub fn get_valid_card_picks(&self) -> (r: Vec<PickableCard>)
        requires
            self.wf(),
        ensures
            r@ == foundation_picks(self.stacks_view()),
    {
        let mut out: Vec<PickableCard> = Vec::new();
        let mut i: usize = 0;
        while i < self.0.len()
            invariant
                self.wf(),
                i <= self.0@.len(),
                out@ == foundation_picks(self.stacks_view().take(i as int)),
            decreases self.0@.len() - i,
        {
            proof {
                assert(self.stacks_view()[i as int] == self.0@[i as int].1@);
                assert(self.stacks_view().take(i + 1).drop_last() =~= self.stacks_view().take(
                    i as int,
                ));
                assert(self.stacks_view().take(i + 1).last() == self.stacks_view()[i as int]);
            }
            match self.0[i].try_get_card_pick() {
                Some(p) => {
                    out.push(p);
                },
                None => {},
            }
            i = i + 1;
        }
        proof {
            assert(self.stacks_view().take(self.stacks_view().len() as int) =~= self.stacks_view());
        }
        out
    }

    /// All legal destinations here for the picked card.
    #[verifier::rlimit(60)]
    pub fn get_valid_card_puts(&self, pick: &PickableCard) -> (r: Vec<CardMove>)
        requires
            self.wf(),
            pick.0.wf(),
        ensures
            r@ == foundation_puts(self.stacks_view(), *pick),
    {
        let mut out: Vec<CardMove> = Vec::new();
        let mut i: usize = 0;
        while i < self.0.len()
            invariant
                self.wf(),
                i <= self.0@.len(),
                pick.0.wf(),
                out@ == foundation_puts(self.stacks_view().take(i as int), *pick),
            decreases self.0@.len() - i,
        {
            proof {
                assert(self.stacks_view()[i as int] == self.0@[i as int].1@);
                assert(self.stacks_view().take(i + 1).drop_last() =~= self.stacks_view().take(
                    i as int,
                ));
                assert(self.stacks_view().take(i + 1).last() == self.stacks_view()[i as int]);
            }
            match self.0[i].try_get_card_move(pick) {
                Some(m) => {
                    out.push(m);
                },
                None => {},
            }
            i = i + 1;
        }
        proof {
            assert(self.stacks_view().take(self.stacks_view().len() as int) =~= self.stacks_view());
        }
        out
    }
}

impl FindProxPair<FoundationCardLocation> for Foundation {
    open spec fn prox_count(&self, prox: ProximateCard) -> nat {
        count_matches_cols(self.stacks_view(), prox)
    }

    open spec fn loc_is_match(&self, loc: FoundationCardLocation, prox: ProximateCard) -> bool {
        let stacks = self.stacks_view();
        &&& loc.0.0 < stacks.len()
        &&& loc.1.foundation_size == stacks[loc.0.0 as int].len()
        &&& loc.1.depth < stacks[loc.0.0 as int].len()
        &&& stacks[loc.0.0 as int][stacks[loc.0.0 as int].len() - 1 - loc.1.depth].matches_spec(
            prox,
        )
    }

    /// Scan order: piles in position order, top-down within one pile.
    open spec fn loc_before(&self, a: FoundationCardLocation, b: FoundationCardLocation) -> bool {
        a.0.0 < b.0.0 || (a.0.0 == b.0.0 && a.1.depth < b.1.depth)
    }

    open spec fn prox_wf(&self) -> bool {
        self.wf()
    }

    fn find_prox_pair(&self, prox_card: &ProximateCard) -> (r: Ternary<FoundationCardLocation>) {
        let ghost stacks = self.stacks_view();
        let ghost total = count_matches_cols(stacks, *prox_card);
        let mut found: Ternary<FoundationCardLocation> = Ternary::Zero;
        let ghost mut seen: nat = 0;
        let mut i: usize = 0;
        proof {
            assert(stacks.skip(0) =~= stacks);
        }
        while i < self.0.len()
            invariant
                self.wf(),
                stacks == self.stacks_view(),
                i <= self.0@.len(),
                total == count_matches_cols(stacks, *prox_card),
                seen + count_matches_cols(stacks.skip(i as int), *prox_card) == total,
                seen == 0 ==> found is Zero,
                seen == 1 ==> found is One,
                seen >= 2 ==> found is Two,
                found matches Ternary::One(a) ==> self.loc_is_match(a, *prox_card) && a.0.0 < i,
                found matches Ternary::Two(a, b) ==> self.loc_is_match(a, *prox_card)
                    && self.loc_is_match(b, *prox_card) && self.loc_before(a, b) && a.0.0 < i
                    && b.0.0 < i,
            decreases self.0@.len() - i,
        {
            proof {
                assert(stacks[i as int] == self.0@[i as int].1@);
                lemma_count_matches_cols_skip_step(stacks, i as int, *prox_card);
            }
            let sub = self.0[i].find_equivalent_pair(prox_card);
            proof {
                seen = seen + count_matches(stacks[i as int], *prox_card);
            }
            match sub {
                Ternary::Zero => {},
                Ternary::One(d0) => {
                    proof {
                        assert(sub@ =~= seq![d0]);
                        assert(sub@[0] == d0);
                    }
                    let loc0 = FoundationCardLocation(FoundationPosition(i), d0);
                    match found {
                        Ternary::Zero => {
                            found = Ternary::One(loc0);
                        },
                        Ternary::One(fst) => {
                            found = Ternary::Two(fst, loc0);
                        },
                        Ternary::Two(_, _) => {},
                    }
                },
                Ternary::Two(d0, d1) => {
                    proof {
                        assert(sub@ =~= seq![d0, d1]);
                        assert(sub@[0] == d0 && sub@[1] == d1);
                    }
                    let loc0 = FoundationCardLocation(FoundationPosition(i), d0);
                    let loc1 = FoundationCardLocation(FoundationPosition(i), d1);
                    match found {
                        Ternary::Zero => {
                            found = Ternary::Two(loc0, loc1);
                        },
                        Ternary::One(fst) => {
                            found = Ternary::Two(fst, loc0);
                        },
                        Ternary::Two(_, _) => {},
                    }
                },
            }
            i = i + 1;
        }
        proof {
            assert(stacks.skip(stacks.len() as int) =~= Seq::<Seq<Card>>::empty());
            match found {
                Ternary::Zero => {
                    assert(found@.len() == 0);
                },
                Ternary::One(a) => {
                    assert(found@ =~= seq![a]);
                },
                Ternary::Two(a, b) => {
                    assert(found@ =~= seq![a, b]);
                },
            }
        }
        found
    }
}

/// For each pile: the card at a listed location, a blank otherwise.
pub struct FoundationShownCards(pub Vec<ShownCard>);

/// The first listed location naming the given pile position, if any.
pub open spec fn foundation_listed_at(
    positions: Seq<FoundationCardLocation>,
    i: int,
) -> Option<FoundationCardLocation>
    decreases positions.len(),
{
    if positions.len() == 0 {
        None
    } else if positions[0].0.0 == i {
        Some(positions[0])
    } else {
        foundation_listed_at(positions.skip(1), i)
    }
}

/// A listed-at hit is one of the listed locations and names the asked
/// pile.
pub proof fn lemma_foundation_listed_at(positions: Seq<FoundationCardLocation>, i: int)
    ensures
        match foundation_listed_at(positions, i) {
            Some(p) => p.0.0 == i && exists|k: int|
                0 <= k < positions.len() && #[trigger] positions[k] == p,
            None => true,
        },
    decreases positions.len(),
{
    if positions.len() > 0 && positions[0].0.0 != i {
        lemma_foundation_listed_at(positions.skip(1), i);
        match foundation_listed_at(positions.skip(1), i) {
            Some(p) => {
                let k = choose|k: int|
                    0 <= k < positions.skip(1).len() && #[trigger] positions.skip(1)[k] == p;
                assert(positions[k + 1] == p);
            },
            None => {},
        }
    }
}

impl Foundation {
    /// The renderer's view of the foundation for a set of locations to
    /// reveal: the addressed card for each listed pile, a blank for the
    /// rest. Every listed location must be valid for the current state.
    pub fn show_cards(&self, positions: &Vec<FoundationCardLocation>) -> (r: FoundationShownCards)
        requires
            self.wf(),
            forall|k: int|
                0 <= k < positions@.len() ==> {
                    let p = #[trigger] positions@[k];
                    p.0.0 < self.stacks_view().len() && p.1.depth < self.stacks_view()[p.0.0 as int].len()
                },
        ensures
            r.0@.len() == self.stacks_view().len(),
            forall|i: int|
                0 <= i < r.0@.len() ==> r.0@[i] == (match foundation_listed_at(positions@, i) {
                    Some(p) => ShownCard::Revealed(
                        self.stacks_view()[i][self.stacks_view()[i].len() - 1 - p.1.depth],
                    ),
                    None => ShownCard::Blank,
                }),
    {
        let mut out: Vec<ShownCard> = Vec::new();
        let mut i: usize = 0;
        while i < self.0.len()
            invariant
                self.wf(),
                i <= self.0@.len(),
                out@.len() == i,
                forall|k: int|
                    0 <= k < positions@.len() ==> {
                        let p = #[trigger] positions@[k];
                        p.0.0 < self.stacks_view().len() && p.1.depth < self.stacks_view()[p.0.0 as int].len()
                    },
                forall|j: int|
                    0 <= j < out@.len() ==> out@[j] == (match foundation_listed_at(positions@, j) {
                        Some(p) => ShownCard::Revealed(
                            self.stacks_view()[j][self.stacks_view()[j].len() - 1 - p.1.depth],
                        ),
                        None => ShownCard::Blank,
                    }),
            decreases self.0@.len() - i,
        {
            proof {
                assert(self.stacks_view()[i as int] == self.0@[i as int].1@);
                lemma_foundation_listed_at(positions@, i as int);
            }
            let cell = match foundation_find_listed(positions, i) {
                Some(p) => {
                    let stack_len = self.0[i].1.len();
                    ShownCard::Revealed(self.0[i].1[stack_len - 1 - p.1.depth])
                },
                None => ShownCard::Blank,
            };
            out.push(cell);
            i = i + 1;
        }
        FoundationShownCards(out)
    }
}

fn foundation_find_listed(positions: &Vec<FoundationCardLocation>, i: usize) -> (r: Option<
    FoundationCardLocation,
>)
    ensures
        r == foundation_listed_at(positions@, i as int),
{
    let mut k: usize = 0;
    proof {
        assert(positions@.skip(0) =~= positions@);
    }
    while k < positions.len()
        invariant
            k <= positions@.len(),
            foundation_listed_at(positions@, i as int) == foundation_listed_at(
                positions@.skip(k as int),
                i as int,
            ),
        decreases positions@.len() - k,
    {
        proof {
            assert(positions@.skip(k as int)[0] == positions@[k as int]);
            assert(positions@.skip(k as int).skip(1) =~= positions@.skip(k + 1));
        }
        if positions[k].0.0 == i {
            return Some(positions[k]);
        }
        k = k + 1;
    }
    proof {
        assert(positions@.skip(positions@.len() as int) =~= Seq::<FoundationCardLocation>::empty());
    }
    None
}

impl Foundation {
    /// Lift the top card of one non-empty pile.
    pub(crate) fn take_at(&mut self, i: usize) -> (r: Card)
        requires
            old(self).wf(),
            i < old(self).stacks_view().len(),
            old(self).stacks_view()[i as int].len() > 0,
        ensures
            final(self).wf(),
            r == old(self).stacks_view()[i as int].last(),
            r.wf(),
            final(self).stacks_view() =~= old(self).stacks_view().update(
                i as int,
                old(self).stacks_view()[i as int].drop_last(),
            ),
    {
        proof {
            assert(self.stacks_view()[i as int] == self.0@[i as int].1@);
            assert(self.0@[i as int].wf());
            assert(self.0@[i as int].1@.last().wf());
        }
        let r = match self.0[i].pick_card() {
            Ok(c) => c,
            Err(_) => {
                proof {
                    assert(false);
                }
                Card(crate::card::Rank(1), crate::card::Suit::Spades)
            },
        };
        proof {
            assert forall|k: int|
                0 <= k < self.stacks_view().len() implies self.stacks_view()[k] == old(
                self,
            ).stacks_view().update(
                i as int,
                old(self).stacks_view()[i as int].drop_last(),
            )[k] by {
                assert(self.stacks_view()[k] == self.0@[k].1@);
                assert(old(self).stacks_view()[k] == old(self).0@[k].1@);
            }
        }
        r
    }

    /// Put a card on top of one pile, unconditionally.
    pub(crate) fn put_at(&mut self, i: usize, card: Card)
        requires
            old(self).wf(),
            i < old(self).stacks_view().len(),
            card.wf(),
        ensures
            final(self).wf(),
            final(self).stacks_view() =~= old(self).stacks_view().update(
                i as int,
                old(self).stacks_view()[i as int].push(card),
            ),
    {
        proof {
            assert(self.stacks_view()[i as int] == self.0@[i as int].1@);
        }
        self.0[i].place_card(card);
        proof {
            assert forall|k: int|
                0 <= k < self.stacks_view().len() implies self.stacks_view()[k] == old(
                self,
            ).stacks_view().update(
                i as int,
                old(self).stacks_view()[i as int].push(card),
            )[k] by {
                assert(self.stacks_view()[k] == self.0@[k].1@);
                assert(old(self).stacks_view()[k] == old(self).0@[k].1@);
            }
            assert forall|k: int| 0 <= k < self.0@.len() implies all_wf(
                (#[trigger] self.0@[k]).1@,
            ) by {
                if k == i {
                    assert(forall|j: int|
                        0 <= j < self.0@[k].1@.len() - 1 ==> self.0@[k].1@[j] == old(
                            self,
                        ).0@[k].1@[j]);
                }
            }
        }
    }
}

} // verus!
