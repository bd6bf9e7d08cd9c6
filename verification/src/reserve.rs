//! The reserve: four free-standing slots each holding at most one card.
//! Reserve cards are always immediately liftable (distance zero) and a
//! slot accepts a card only while it is empty.

use vstd::prelude::*;

use crate::card::{Card, ProximateCard, ShownCard};
use crate::counting::count_matches_slots;
use crate::counting::lemma_count_matches_slots_skip_step;
use crate::error::GameError;
use crate::game::CardLocation;
use crate::pickables::{CardMove, FindProxPair, HoldsCard, PickableCard};
use crate::ternary::Ternary;

verus! {

pub const NUMBER_OF_RESERVE_SLOTS: usize = 4;

#[derive(Debug, Clone, Copy, PartialEq, Eq, Structural)]
pub struct ReservePosition(pub usize);

#[derive(Debug, PartialEq, Eq, Clone, Copy, Structural)]
pub struct ReserveCardLocation(pub ReservePosition);

impl ReserveCardLocation {
    pub fn new(position: usize) -> (r: Self)
        ensures
            r == ReserveCardLocation(ReservePosition(position)),
    {
        ReserveCardLocation(ReservePosition(position))
    }

    pub fn position(&self) -> (r: ReservePosition)
        ensures
            r == self.0,
    {
        self.0
    }
}

/// One slot: its fixed position and the card it holds, if any.
#[derive(Debug)]
pub struct ReserveSlot(pub ReservePosition, pub Option<Card>);

impl ReserveSlot {
    pub fn new(position: usize) -> (r: Self)
        ensures
            r == ReserveSlot(ReservePosition(position), None::<Card>),
    {
        ReserveSlot(ReservePosition(position), None)
    }

    pub fn matches_prox_card(&self, prox_card: &ProximateCard) -> (r: bool)
        ensures
            r == match self.1 {
                Some(c) => c.matches_spec(*prox_card),
                None => false,
            },
    {
        match &self.1 {
            Some(c) => c.matches_prox_card(prox_card),
            None => false,
        }
    }
}

impl HoldsCard for ReserveSlot {
    open spec fn held(&self) -> Seq<Card> {
        match self.1 {
            Some(c) => seq![c],
            None => Seq::empty(),
        }
    }

    open spec fn wf(&self) -> bool {
        &&& self.0.0 < NUMBER_OF_RESERVE_SLOTS
        &&& match self.1 {
            Some(c) => c.wf(),
            None => true,
        }
    }

    open spec fn pos_id(&self) -> int {
        self.0.0 as int
    }

    /// Placement into a reserve slot is legal exactly while it is empty.
    open spec fn accepts_card(&self, card: Card) -> bool {
        self.1 is None
    }

    open spec fn top_location(&self) -> CardLocation {
        CardLocation::Reserve(ReserveCardLocation(self.0))
    }

    open spec fn empty_pick_error(&self) -> GameError {
        GameError::TriedToPickEmptyReserveSlot
    }

    open spec fn may_receive(&self) -> bool {
        self.1 is None
    }

    fn try_get_card_pick(&self) -> (r: Option<PickableCard>) {
        match &self.1 {
            Some(card) => Some(
                PickableCard::new(card, CardLocation::Reserve(ReserveCardLocation(self.0))),
            ),
            None => None,
        }
    }

    fn try_get_card_move(&self, picked_card: &PickableCard) -> (r: Option<CardMove>) {
        if self.1.is_none() {
            Some(CardMove::new(picked_card, CardLocation::Reserve(ReserveCardLocation(self.0))))
        } else {
            None
        }
    }

    fn pick_card(&mut self) -> (r: Result<Card, GameError>) {
        match self.1 {
            Some(card) => {
                self.1 = None;
                proof {
                    assert(old(self).held().drop_last() =~= self.held());
                }
                Ok(card)
            },
            None => Err(GameError::TriedToPickEmptyReserveSlot),
        }
    }
}

impl ReserveSlot {
    /// Put a card into this empty slot.
    pub(crate) fn put_card(&mut self, card: Card)
        requires
            old(self).1 is None,
        ensures
            *final(self) == ReserveSlot(old(self).0, Some(card)),
    {
        self.1 = Some(card);
    }

    /// Atomically pick from the other holder and place here; fails if this
    /// slot is occupied or the pick fails, with no partial mutation.
    pub fn take_card_from<F: HoldsCard>(&mut self, from: &mut F) -> (r: Result<(), GameError>)
        requires
            old(self).wf(),
            old(from).wf(),
        ensures
            final(self).wf(),
            final(from).wf(),
            final(self).0 == old(self).0,
            final(from).pos_id() == old(from).pos_id(),
            match r {
                Ok(()) => old(self).1 is None && old(from).held().len() > 0
                    && final(from).held() == old(from).held().drop_last()
                    && final(self).held() == old(self).held().push(old(from).held().last()),
                Err(e) => *final(self) == *old(self) && *final(from) == *old(from)
                    && ((old(self).1 is Some && e == GameError::ReserveSlotIsOccupied)
                        || (old(self).1 is None && old(from).held().len() == 0
                            && e == old(from).empty_pick_error())),
            },
    {
        if self.1.is_some() {
            return Err(GameError::ReserveSlotIsOccupied);
        }
        match from.pick_card() {
            Ok(card) => {
                self.1 = Some(card);
                proof {
                    assert(self.held() =~= old(self).held().push(old(from).held().last()));
                }
                Ok(())
            },
            Err(e) => Err(e),
        }
    }
}

/// The expected pick list of a row of slots: one pick per occupied slot,
/// in slot order, each at distance zero.
pub open spec fn reserve_picks(slots: Seq<Option<Card>>) -> Seq<PickableCard>
    decreases slots.len(),
{
    if slots.len() == 0 {
        Seq::empty()
    } else {
        reserve_picks(slots.drop_last()) + (match slots.last() {
            Some(c) => seq![
                PickableCard(
                    c,
                    CardLocation::Reserve(
                        ReserveCardLocation(ReservePosition((slots.len() - 1) as usize)),
                    ),
                ),
            ],
            None => Seq::empty(),
        })
    }
}

/// The expected put list of a row of slots for one pick: one legal move
/// per empty slot, in slot order.
pub open spec fn reserve_puts(slots: Seq<Option<Card>>, pick: PickableCard) -> Seq<CardMove>
    decreases slots.len(),
{
    if slots.len() == 0 {
        Seq::empty()
    } else {
        reserve_puts(slots.drop_last(), pick) + (match slots.last() {
            Some(c) => Seq::empty(),
            None => seq![
                CardMove {
                    card: pick.0,
                    from: pick.1,
                    to: CardLocation::Reserve(
                        ReserveCardLocation(ReservePosition((slots.len() - 1) as usize)),
                    ),
                },
            ],
        })
    }
}

/// The whole reserve row.
#[derive(Debug)]
pub struct Reserve(pub Vec<ReserveSlot>);

impl Reserve {
    /// What each slot holds, in slot order.
    pub open spec fn slots_view(&self) -> Seq<Option<Card>> {
        self.0@.map_values(|s: ReserveSlot| s.1)
    }

    pub open spec fn wf(&self) -> bool {
        &&& self.0@.len() == NUMBER_OF_RESERVE_SLOTS
        &&& forall|i: int| 0 <= i < self.0@.len() ==> (#[trigger] self.0@[i]).0.0 == i
        &&& forall|i: int|
            0 <= i < self.0@.len() ==> match (#[trigger] self.0@[i]).1 {
                Some(c) => c.wf(),
                None => true,
            }
    }

    pub fn new() -> (r: Self)
        ensures
            r.wf(),
            r.slots_view() =~= seq![None::<Card>, None::<Card>, None::<Card>, None::<Card>],
    {
        let mut slots: Vec<ReserveSlot> = Vec::new();
        slots.push(ReserveSlot::new(0));
        slots.push(ReserveSlot::new(1));
        slots.push(ReserveSlot::new(2));
        slots.push(ReserveSlot::new(3));
        Reserve(slots)
    }

    /// All currently liftable picks: one per occupied slot.
    pub fn get_valid_card_picks(&self) -> (r: Vec<PickableCard>)
        requires
            self.wf(),
        ensures
            r@ == reserve_picks(self.slots_view()),
    {
        let mut out: Vec<PickableCard> = Vec::new();
        let mut i: usize = 0;
        while i < self.0.len()
            invariant
                self.wf(),
                i <= self.0@.len(),
                out@ == reserve_picks(self.slots_view().take(i as int)),
            decreases self.0@.len() - i,
        {
            proof {
                assert(self.slots_view()[i as int] == self.0@[i as int].1);
                assert(self.slots_view().take(i + 1).drop_last() =~= self.slots_view().take(
                    i as int,
                ));
                assert(self.slots_view().take(i + 1).last() == self.slots_view()[i as int]);
            }
            match &self.0[i].1 {
                Some(card) => {
                    out.push(
                        PickableCard::new(
                            card,
                            CardLocation::Reserve(ReserveCardLocation(ReservePosition(i))),
                        ),
                    );
                },
                None => {},
            }
            i = i + 1;
        }
        proof {
            assert(self.slots_view().take(self.slots_view().len() as int) =~= self.slots_view());
        }
        out
    }

    /// All legal destinations here for the picked card: one per empty slot.
    pub fn get_valid_card_puts(&self, pick: &PickableCard) -> (r: Vec<CardMove>)
        requires
            self.wf(),
            pick.0.wf(),
        ensures
            r@ == reserve_puts(self.slots_view(), *pick),
    {
        let mut out: Vec<CardMove> = Vec::new();
        let mut i: usize = 0;
        while i < self.0.len()
            invariant
                self.wf(),
                i <= self.0@.len(),
                pick.0.wf(),
                out@ == reserve_puts(self.slots_view().take(i as int), *pick),
            decreases self.0@.len() - i,
        {
            proof {
                assert(self.slots_view()[i as int] == self.0@[i as int].1);
                assert(self.slots_view().take(i + 1).drop_last() =~= self.slots_view().take(
                    i as int,
                ));
                assert(self.slots_view().take(i + 1).last() == self.slots_view()[i as int]);
            }
            match self.0[i].try_get_card_move(pick) {
                Some(m) => {
                    out.push(m);
                },
                None => {},
            }
            i = i + 1;
        }
        proof {
            assert(self.slots_view().take(self.slots_view().len() as int) =~= self.slots_view());
        }
        out
    }
}

impl FindProxPair<ReserveCardLocation> for Reserve {
    open spec fn prox_count(&self, prox: ProximateCard) -> nat {
        count_matches_slots(self.slots_view(), prox)
    }

    open spec fn loc_is_match(&self, loc: ReserveCardLocation, prox: ProximateCard) -> bool {
        &&& loc.0.0 < self.slots_view().len()
        &&& match self.slots_view()[loc.0.0 as int] {
            Some(c) => c.matches_spec(prox),
            None => false,
        }
    }

    /// Slot order: the earlier position is visited first.
    open spec fn loc_before(&self, a: ReserveCardLocation, b: ReserveCardLocation) -> bool {
        a.0.0 < b.0.0
    }

    open spec fn prox_wf(&self) -> bool {
        self.wf()
    }

    fn find_prox_pair(&self, prox_card: &ProximateCard) -> (r: Ternary<ReserveCardLocation>) {
        let ghost total = count_matches_slots(self.slots_view(), *prox_card);
        let mut found: Ternary<ReserveCardLocation> = Ternary::Zero;
        let ghost mut seen: nat = 0;
        let mut i: usize = 0;
        proof {
            assert(self.slots_view().skip(0) =~= self.slots_view());
        }
        while i < self.0.len()
            invariant
                self.wf(),
                i <= self.0@.len(),
                total == count_matches_slots(self.slots_view(), *prox_card),
                seen + count_matches_slots(self.slots_view().skip(i as int), *prox_card) == total,
                seen == 0 ==> found is Zero,
                seen == 1 ==> found is One,
                seen >= 2 ==> found is Two,
                found matches Ternary::One(a) ==> self.loc_is_match(a, *prox_card) && a.0.0 < i,
                found matches Ternary::Two(a, b) ==> self.loc_is_match(a, *prox_card)
                    && self.loc_is_match(b, *prox_card) && a.0.0 < b.0.0 && b.0.0 < i,
            decreases self.0@.len() - i,
        {
            proof {
                assert(self.slots_view()[i as int] == self.0@[i as int].1);
                lemma_count_matches_slots_skip_step(self.slots_view(), i as int, *prox_card);
            }
            if self.0[i].matches_prox_card(prox_card) {
                proof {
                    seen = seen + 1;
                }
                let loc = ReserveCardLocation(ReservePosition(i));
                match found {
                    Ternary::Zero => {
                        found = Ternary::One(loc);
                    },
                    Ternary::One(fst) => {
                        found = Ternary::Two(fst, loc);
                    },
                    Ternary::Two(_, _) => {},
                }
            }
            i = i + 1;
        }
        proof {
            assert(self.slots_view().skip(self.slots_view().len() as int) =~= Seq::<
                Option<Card>,
            >::empty());
            match found {
                Ternary::Zero => {
                    assert(found@.len() == 0);
                },
                Ternary::One(a) => {
                    assert(found@ =~= seq![a]);
                },
                Ternary::Two(a, b) => {
                    assert(found@ =~= seq![a, b]);
                    assert(found@[0] == a && found@[1] == b);
                },
            }
        }
        found
    }
}

/// For each slot: the revealed card when the slot is listed and occupied, a
/// card back when listed but empty, a blank otherwise.
pub struct ReserveShownCards(pub Vec<ShownCard>);

/// Some listed location names the given slot position.
pub open spec fn reserve_position_listed(positions: Seq<ReserveCardLocation>, i: int) -> bool {
    exists|k: int| 0 <= k < positions.len() && (#[trigger] positions[k]).0.0 == i
}

impl Reserve {
    /// The renderer's view of the reserve for a set of locations to reveal.
    pub fn show_cards(&self, positions: &Vec<ReserveCardLocation>) -> (r: ReserveShownCards)
        requires
            self.wf(),
        ensures
            r.0@.len() == self.slots_view().len(),
            forall|i: int|
                0 <= i < r.0@.len() ==> r.0@[i] == (if reserve_position_listed(positions@, i) {
                    match self.slots_view()[i] {
                        Some(c) => ShownCard::Revealed(c),
                        None => ShownCard::Hidden,
                    }
                } else {
                    ShownCard::Blank
                }),
    {
        let mut out: Vec<ShownCard> = Vec::new();
        let mut i: usize = 0;
        while i < self.0.len()
            invariant
                self.wf(),
                i <= self.0@.len(),
                out@.len() == i,
                forall|j: int|
                    0 <= j < out@.len() ==> out@[j] == (if reserve_position_listed(positions@, j) {
                        match self.slots_view()[j] {
                            Some(c) => ShownCard::Revealed(c),
                            None => ShownCard::Hidden,
                        }
                    } else {
                        ShownCard::Blank
                    }),
            decreases self.0@.len() - i,
        {
            proof {
                assert(self.slots_view()[i as int] == self.0@[i as int].1);
            }
            let listed = reserve_contains_position(positions, i);
            let cell = if listed {
                match &self.0[i].1 {
                    Some(card) => ShownCard::Revealed(*card),
                    None => ShownCard::Hidden,
                }
            } else {
                ShownCard::Blank
            };
            out.push(cell);
            i = i + 1;
        }
        ReserveShownCards(out)
    }
}

fn reserve_contains_position(positions: &Vec<ReserveCardLocation>, i: usize) -> (r: bool)
    ensures
        r == reserve_position_listed(positions@, i as int),
{
    let mut k: usize = 0;
    while k < positions.len()
        invariant
            k <= positions@.len(),
            forall|j: int| 0 <= j < k ==> (#[trigger] positions@[j]).0.0 != i,
        decreases positions@.len() - k,
    {
        if positions[k].0.0 == i {
            return true;
        }
        k = k + 1;
    }
    false
}

impl Reserve {
    /// Lift the card out of one occupied slot.
    pub(crate) fn take_at(&mut self, i: usize) -> (r: Card)
        requires
            old(self).wf(),
            i < old(self).slots_view().len(),
            old(self).slots_view()[i as int] is Some,
        ensures
            final(self).wf(),
            Some(r) == old(self).slots_view()[i as int],
            r.wf(),
            final(self).slots_view() =~= old(self).slots_view().update(i as int, None::<Card>),
    {
        proof {
            assert(self.slots_view()[i as int] == self.0@[i as int].1);
            assert(self.0@[i as int].wf());
        }
        let r = match self.0[i].pick_card() {
            Ok(c) => c,
            Err(_) => {
                proof {
                    assert(false);
                }
                Card(crate::card::Rank(1), crate::card::Suit::Spades)
            },
        };
        proof {
            assert(self.0@[i as int].1 is None) by {
                match self.0@[i as int].1 {
                    Some(x) => {
                        assert(self.0@[i as int].held() == seq![x]);
                        assert(false);
                    },
                    None => {},
                }
            }
            assert forall|k: int|
                0 <= k < self.slots_view().len() implies self.slots_view()[k] == old(
                self,
            ).slots_view().update(i as int, None::<Card>)[k] by {
                assert(self.slots_view()[k] == self.0@[k].1);
                assert(old(self).slots_view()[k] == old(self).0@[k].1);
            }
        }
        r
    }

    /// Put a card into one empty slot.
    pub(crate) fn put_at(&mut self, i: usize, card: Card)
        requires
            old(self).wf(),
            i < old(self).slots_view().len(),
            old(self).slots_view()[i as int] is None,
            card.wf(),
        ensures
            final(self).wf(),
            final(self).slots_view() =~= old(self).slots_view().update(i as int, Some(card)),
    {
        proof {
            assert(self.slots_view()[i as int] == self.0@[i as int].1);
        }
        self.0[i].put_card(card);
        proof {
            assert forall|k: int|
                0 <= k < self.slots_view().len() implies self.slots_view()[k] == old(
                self,
            ).slots_view().update(i as int, Some(card))[k] by {
                assert(self.slots_view()[k] == self.0@[k].1);
                assert(old(self).slots_view()[k] == old(self).0@[k].1);
            }
        }
    }
}

} // verus!
