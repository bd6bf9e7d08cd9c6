//! The card model: ranks, suits, colors, concrete cards and the "proximate
//! card" descriptor used by the parent search.

use vstd::prelude::*;

verus! {

pub const NUMBER_OF_CARDS_IN_PACK: usize = 14;

pub const ACE: usize = 1;

pub const JACK: usize = 11;

pub const QUEEN: usize = 12;

pub const KING: usize = 13;

/// A card rank, meaningful between 1 (ace) and 13 (king) inclusive.
#[derive(Debug, PartialEq, Eq, Structural, Copy, Clone, PartialOrd, Ord)]
pub struct Rank(pub usize);

#[derive(Debug, PartialEq, Eq, Structural, Copy, Clone)]
pub enum Color {
    Red,
    Black,
}

impl Color {
    pub open spec fn opposing_spec(self) -> Color {
        match self {
            Color::Red => Color::Black,
            Color::Black => Color::Red,
        }
    }

    pub fn get_opposing_color(&self) -> (r: Color)
        ensures
            r == self.opposing_spec(),
    {
        match self {
            Color::Red => Color::Black,
            Color::Black => Color::Red,
        }
    }
}

#[derive(Debug, Clone, Copy, PartialEq, Eq, Structural)]
pub enum Suit {
    Spades,
    Clubs,
    Hearts,
    Diamonds,
}

impl Suit {
    pub open spec fn colour_spec(self) -> Color {
        match self {
            Suit::Spades | Suit::Clubs => Color::Black,
            Suit::Hearts | Suit::Diamonds => Color::Red,
        }
    }

    /// The two suits of the colour opposite to this suit's colour.
    pub open spec fn opposing_suits_spec(self) -> (Suit, Suit) {
        match self.colour_spec() {
            Color::Red => (Suit::Spades, Suit::Clubs),
            Color::Black => (Suit::Hearts, Suit::Diamonds),
        }
    }

    pub fn get_colour(&self) -> (r: Color)
        ensures
            r == self.colour_spec(),
    {
        match self {
            Suit::Spades | Suit::Clubs => Color::Black,
            Suit::Hearts | Suit::Diamonds => Color::Red,
        }
    }

    pub fn is_opposing_color(&self, other: &Suit) -> (r: bool)
        ensures
            r == (self.colour_spec() != other.colour_spec()),
    {
        self.get_colour() != other.get_colour()
    }

    pub fn get_opposing_suits(&self) -> (r: (Suit, Suit))
        ensures
            r == self.opposing_suits_spec(),
            r.0.colour_spec() == self.colour_spec().opposing_spec(),
            r.1.colour_spec() == self.colour_spec().opposing_spec(),
            r.0 != r.1,
    {
        match self.get_colour() {
            Color::Red => (Suit::Spades, Suit::Clubs),
            Color::Black => (Suit::Hearts, Suit::Diamonds),
        }
    }
}

/// The two suits that carry a given colour.
pub open spec fn suits_of_colour(c: Color) -> (Suit, Suit) {
    match c {
        Color::Red => (Suit::Hearts, Suit::Diamonds),
        Color::Black => (Suit::Spades, Suit::Clubs),
    }
}

/// A fuzzy descriptor: any card of this colour and rank. For every
/// descriptor of a meaningful rank exactly two concrete cards match it,
/// one per suit of the colour.
#[derive(Debug, Clone, Copy, PartialEq, Eq, Structural)]
pub struct ProximateCard {
    pub color: Color,
    pub rank: Rank,
}

impl ProximateCard {
    pub fn matches(&self, card: &Card) -> (r: bool)
        ensures
            r == card.matches_spec(*self),
    {
        card.get_color() == self.color && card.get_value() == self.rank
    }
}

/// The two concrete cards that match a descriptor.
pub open spec fn descriptor_cards(prox: ProximateCard) -> (Card, Card) {
    (
        Card(prox.rank, suits_of_colour(prox.color).0),
        Card(prox.rank, suits_of_colour(prox.color).1),
    )
}

/// A card matches a descriptor exactly when it is one of the descriptor's
/// two concrete cards.
pub proof fn lemma_descriptor_cards(prox: ProximateCard, card: Card)
    ensures
        card.matches_spec(prox) <==> (card == descriptor_cards(prox).0 || card
            == descriptor_cards(prox).1),
        descriptor_cards(prox).0 != descriptor_cards(prox).1,
        descriptor_cards(prox).0.matches_spec(prox),
        descriptor_cards(prox).1.matches_spec(prox),
{
}

#[derive(Debug, Clone, Copy, PartialEq, Eq, Structural)]
pub struct Card(pub Rank, pub Suit);

/// A tableau pair: the child sits on a parent of the opposite colour and of
/// rank exactly one above the child's.
pub open spec fn playable_pair_spec(parent: Card, child: Card) -> bool {
    parent.colour_spec() != child.colour_spec() && child.rank_spec() + 1 == parent.rank_spec()
}

/// A foundation pair: the candidate extends a top card of the same suit with
/// rank exactly one above the top's.
pub open spec fn foundation_pair_spec(top: Card, candidate: Card) -> bool {
    top.1 == candidate.1 && top.rank_spec() + 1 == candidate.rank_spec()
}

impl Card {
    pub open spec fn wf(self) -> bool {
        1 <= self.0.0 <= KING
    }

    pub open spec fn colour_spec(self) -> Color {
        self.1.colour_spec()
    }

    pub open spec fn rank_spec(self) -> int {
        self.0.0 as int
    }

    pub open spec fn matches_spec(self, prox: ProximateCard) -> bool {
        self.colour_spec() == prox.color && self.0 == prox.rank
    }

    /// The descriptor of any card that could legally become this card's
    /// tableau parent: opposite colour, one rank above.
    pub open spec fn parent_descriptor_spec(self) -> ProximateCard {
        ProximateCard {
            color: self.colour_spec().opposing_spec(),
            rank: Rank((self.0.0 + 1) as usize),
        }
    }

    pub fn new(rank: usize, suit: Suit) -> (r: Self)
        requires
            ACE <= rank <= KING,
        ensures
            r == Card(Rank(rank), suit),
            r.wf(),
    {
        Card(Rank(rank), suit)
    }

    pub fn get_color(&self) -> (r: Color)
        ensures
            r == self.colour_spec(),
    {
        self.1.get_colour()
    }

    pub fn get_value(&self) -> (r: Rank)
        ensures
            r == self.0,
    {
        self.0
    }

    /// Same suit as the other card.
    pub fn is_same_pack(&self, other: &Card) -> (r: bool)
        ensures
            r == (self.1 == other.1),
    {
        self.1 == other.1
    }

    /// Opposite colour to the other card.
    pub fn is_complementary_pack(&self, other: &Card) -> (r: bool)
        ensures
            r == (self.colour_spec() != other.colour_spec()),
    {
        self.1.is_opposing_color(&other.1)
    }

    /// This card is one rank below the other.
    pub fn is_playable_pair_smaller(&self, other: &Card) -> (r: bool)
        requires
            self.wf(),
        ensures
            r == (self.rank_spec() + 1 == other.rank_spec()),
    {
        self.0.0 + 1 == other.0.0
    }

    /// This card is one rank above the other.
    pub fn is_playable_pair_bigger(&self, other: &Card) -> (r: bool)
        requires
            other.wf(),
        ensures
            r == (other.rank_spec() + 1 == self.rank_spec()),
    {
        other.0.0 + 1 == self.0.0
    }

    pub fn matches_prox_card(&self, prox_card: &ProximateCard) -> (r: bool)
        ensures
            r == self.matches_spec(*prox_card),
    {
        self.get_color() == prox_card.color && self.get_value() == prox_card.rank
    }

    /// The descriptor of this card's possible parents, or none for a king.
    pub fn get_parent_data(&self) -> (r: Option<ProximateCard>)
        requires
            self.wf(),
        ensures
            self.0.0 < KING ==> r == Some(self.parent_descriptor_spec()),
            self.0.0 == KING ==> r is None,
    {
        if self.0.0 < KING {
            Some(
                ProximateCard {
                    color: self.get_color().get_opposing_color(),
                    rank: Rank(self.0.0 + 1),
                },
            )
        } else {
            None
        }
    }

    /// The two concrete cards that could become this card's parent, or none
    /// for a king.
    pub fn get_parents(&self) -> (r: Option<(Card, Card)>)
        requires
            self.wf(),
        ensures
            self.0.0 == KING ==> r is None,
            self.0.0 < KING ==> r == Some(descriptor_cards(self.parent_descriptor_spec())),
    {
        let Card(rank, suit) = self;

        if rank.0 < KING {
            let (fst_suit, snd_suit) = suit.get_opposing_suits();
            let parent_value = Rank(rank.0 + 1);

            Some((Card(parent_value, fst_suit), Card(parent_value, snd_suit)))
        } else {
            None
        }
    }
}

pub type RawCard = (usize, Suit);

/// What a board cell offers to a renderer: the concrete card (revealed), a
/// card back (present but hidden), or nothing at all.
#[derive(Debug, Clone, Copy, PartialEq, Eq, Structural)]
pub enum ShownCard {
    Revealed(Card),
    Hidden,
    Blank,
}

} // verus!
