//! Validated, not-yet-executed references to liftable cards and stacks,
//! move descriptions pairing a pick with a destination, and the two depot
//! capability contracts ("holds single cards", "holds ordered stacks")
//! together with the proximity-search contract.

use vstd::prelude::*;

use crate::card::{Card, ProximateCard};
use crate::error::GameError;
use crate::game::CardLocation;

verus! {

/// A concrete card together with the location it occupies, asserted to be
/// the topmost liftable card there at the moment of computation.
#[derive(Debug, Clone, Copy, PartialEq, Eq, Structural)]
pub struct PickableCard(pub Card, pub CardLocation);

impl PickableCard {
    pub fn new(card: &Card, location: CardLocation) -> (r: Self)
        ensures
            r == PickableCard(*card, location),
    {
        PickableCard(*card, location)
    }
}

/// A contiguous run of cards within one tableau column: its deepest
/// (first-lifted) card, the location of that card, and the run's size.
#[derive(Debug, Clone, Copy, PartialEq, Eq, Structural)]
pub struct PickableStack {
    pub deepest_card: Card,
    pub location: CardLocation,
    pub size: usize,
}

impl PickableStack {
    pub fn new(deepest_card: &Card, location: CardLocation, size: usize) -> (r: Self)
        ensures
            r == (PickableStack { deepest_card: *deepest_card, location, size }),
    {
        PickableStack { deepest_card: *deepest_card, location, size }
    }
}

/// Either kind of validated move description.
pub enum Move {
    Card(CardMove),
    Stack(StackMove),
}

/// A pure description of moving one card: no side effects; executing it is
/// a separate, explicit step.
#[derive(Debug, Clone, Copy, PartialEq, Eq, Structural)]
pub struct CardMove {
    pub card: Card,
    pub from: CardLocation,
    pub to: CardLocation,
}

impl CardMove {
    pub fn new(pick: &PickableCard, put: CardLocation) -> (r: Self)
        ensures
            r == (CardMove { card: pick.0, from: pick.1, to: put }),
    {
        CardMove { card: pick.0, from: pick.1, to: put }
    }
}

/// A pure description of moving a stack of cards.
#[derive(Debug, Clone, Copy, PartialEq, Eq, Structural)]
pub struct StackMove {
    pub size: usize,
    pub deepest_card: Card,
    pub from: CardLocation,
    pub to: CardLocation,
}

impl StackMove {
    pub fn new(pick: &PickableStack, put: CardLocation) -> (r: Self)
        ensures
            r == (StackMove {
                size: pick.size,
                deepest_card: pick.deepest_card,
                from: pick.location,
                to: put,
            }),
    {
        StackMove { size: pick.size, deepest_card: pick.deepest_card, from: pick.location, to: put }
    }
}

/// The capability of holding single cards: a column, a reserve slot or a
/// foundation stack. `held` is the container's content from bottom to top;
/// `accepts_card` is its placement rule over the current content.
pub trait HoldsCard: Sized {
    /// The held cards, bottom first, top last.
    spec fn held(&self) -> Seq<Card>;

    /// Structural validity: the position is in range and every held card is
    /// well formed.
    spec fn wf(&self) -> bool;

    /// Which position of which aggregate this container is.
    spec fn pos_id(&self) -> int;

    /// The placement rule of this container kind, judged against the
    /// current content.
    spec fn accepts_card(&self, card: Card) -> bool;

    /// The location describing this container's topmost slot right now.
    spec fn top_location(&self) -> CardLocation;

    /// The error reported for a pick from this container when it is empty.
    spec fn empty_pick_error(&self) -> GameError;

    /// Whether an exclusivity constraint currently allows receiving at all
    /// (only reserve slots constrain this).
    spec fn may_receive(&self) -> bool;

    /// The topmost liftable card with its location, or none when empty.
    fn try_get_card_pick(&self) -> (r: Option<PickableCard>)
        requires
            self.wf(),
        ensures
            match r {
                Some(p) => self.held().len() > 0 && p.0 == self.held().last()
                    && p.1 == self.top_location(),
                None => self.held().len() == 0,
            },
    ;

    /// A move description for placing the picked card here, legal under the
    /// container's placement rule, or none when placement is illegal.
    fn try_get_card_move(&self, picked_card: &PickableCard) -> (r: Option<CardMove>)
        requires
            self.wf(),
            picked_card.0.wf(),
        ensures
            match r {
                Some(m) => self.accepts_card(picked_card.0) && m.card == picked_card.0
                    && m.from == picked_card.1 && m.to == self.top_location(),
                None => !self.accepts_card(picked_card.0),
            },
    ;

    /// Remove and return the topmost card; fail on an empty container.
    fn pick_card(&mut self) -> (r: Result<Card, GameError>)
        requires
            old(self).wf(),
        ensures
            final(self).wf(),
            final(self).pos_id() == old(self).pos_id(),
            match r {
                Ok(c) => old(self).held().len() > 0 && c == old(self).held().last() && c.wf()
                    && final(self).held() == old(self).held().drop_last(),
                Err(e) => old(self).held().len() == 0 && *final(self) == *old(self)
                    && e == old(self).empty_pick_error(),
            },
    ;

}

/// The capability of holding ordered stacks; only tableau columns have it.
pub trait HoldsStack: Sized {
    /// The held cards, bottom first, top last.
    spec fn stack_held(&self) -> Seq<Card>;

    /// Structural validity of the container.
    spec fn stack_wf(&self) -> bool;

    /// The location of the deepest card of a top run of the given size.
    spec fn stack_location(&self, size: int) -> CardLocation;

    /// The placement rule for a whole stack, judged by its deepest card.
    spec fn accepts_stack(&self, deepest: Card) -> bool;

    /// The top `pick_size` cards as a pickable stack when every adjacent
    /// pair of the run is a playable pair, or none otherwise.
    fn can_pick_stack(&self, pick_size: usize) -> (r: Option<PickableStack>)
        requires
            self.stack_wf(),
        ensures
            match r {
                Some(ps) => crate::tableau::stack_pickable(self.stack_held(), pick_size as int)
                    && ps.size == pick_size
                    && ps.deepest_card == self.stack_held()[self.stack_held().len() - pick_size]
                    && ps.location == self.stack_location(pick_size as int),
                None => !crate::tableau::stack_pickable(self.stack_held(), pick_size as int),
            },
    ;

    /// A move description for appending the picked stack here, or none when
    /// the placement rule refuses its deepest card.
    fn can_put_stack(&self, picked_stack: &PickableStack) -> (r: Option<StackMove>)
        requires
            self.stack_wf(),
            picked_stack.deepest_card.wf(),
        ensures
            match r {
                Some(m) => self.accepts_stack(picked_stack.deepest_card) && m.size
                    == picked_stack.size && m.deepest_card == picked_stack.deepest_card && m.from
                    == picked_stack.location && m.to == self.stack_location(0),
                None => !self.accepts_stack(picked_stack.deepest_card),
            },
    ;

    /// Remove and return the top `pick.size` cards, deepest first; fail
    /// when the container holds fewer cards than that.
    fn pick_stack(&mut self, pick: PickableStack) -> (r: Result<Vec<Card>, GameError>)
        requires
            old(self).stack_wf(),
        ensures
            final(self).stack_wf(),
            match r {
                Ok(v) => pick.size <= old(self).stack_held().len()
                    && v@ == old(self).stack_held().skip(old(self).stack_held().len() - pick.size)
                    && crate::counting::all_wf(v@)
                    && final(self).stack_held() == old(self).stack_held().take(old(self).stack_held().len() - pick.size),
                Err(e) => old(self).stack_held().len() < pick.size && *final(self) == *old(self)
                    && e == (GameError::InsufficientCardsForStackPick { stack_size: pick.size }),
            },
    ;

}

/// The proximity-search contract: find all concrete cards matching a
/// descriptor, reporting the first two hit locations of the search order.
pub trait FindProxPair<T>: Sized {
    /// How many held cards match the descriptor.
    spec fn prox_count(&self, prox: ProximateCard) -> nat;

    /// The given location points at a card matching the descriptor.
    spec fn loc_is_match(&self, loc: T, prox: ProximateCard) -> bool;

    /// The search visits `a` strictly before `b`: shallower first within
    /// one container, earlier position first across an aggregate's
    /// children.
    spec fn loc_before(&self, a: T, b: T) -> bool;

    /// Structural validity of the searched container.
    spec fn prox_wf(&self) -> bool;

    fn find_prox_pair(&self, prox_card: &ProximateCard) -> (r: crate::ternary::Ternary<T>)
        requires
            self.prox_wf(),
        ensures
            r@.len() == vstd::math::min(2, self.prox_count(*prox_card) as int),
            forall|i: int| 0 <= i < r@.len() ==> self.loc_is_match(#[trigger] r@[i], *prox_card),
            r@.len() == 2 ==> self.loc_before(r@[0], r@[1]) && r@[0] != r@[1],
    ;
}

} // verus!
