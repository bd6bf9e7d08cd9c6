//! The orchestrator: the three aggregate depots composed into one board,
//! with legality queries, the parent search and validated move execution.
//!
//! The board's central invariant is card conservation: every well-formed
//! card is present exactly once across all depots. The parent search's
//! guarantee of exactly two hits is proved from it.

use vstd::prelude::*;

use crate::card::{
    descriptor_cards, foundation_pair_spec, lemma_descriptor_cards, playable_pair_spec, Card,
    ProximateCard, Rank, RawCard, KING,
};
use crate::counting::{
    all_wf, concat_cols, concat_slots, count_eq, count_eq_cols, count_eq_slots, count_matches,
    count_matches_cols, count_matches_slots, lemma_all_wf_concat_cols, lemma_all_wf_concat_slots,
    lemma_count_eq_concat, lemma_count_eq_concat_cols, lemma_count_eq_concat_slots,
    lemma_count_eq_cols_empty, lemma_count_eq_cols_update, lemma_count_eq_drop_last,
    lemma_count_eq_push, lemma_count_eq_slots_none, lemma_count_eq_slots_update,
    lemma_count_matches_concat, lemma_count_matches_concat_cols, lemma_count_matches_concat_slots,
    lemma_count_matches_split, lemma_full_deck_len,
};
use crate::error::GameError;
use crate::foundation::{Foundation, FoundationCardLocation, FoundationShownCards};
use crate::pickables::{CardMove, FindProxPair, PickableCard, PickableStack};
use crate::reserve::{Reserve, ReserveCardLocation, ReserveShownCards};
use crate::tableau::{col_from_raw, Tableau, TableauCardLocation, TableauShownCards};
use crate::ternary::Ternary;

verus! {

/// The outcome of a parent search: the two locations holding a card that
/// could receive the queried card, or the terminal answer for kings.
#[derive(Debug, Clone, Copy, PartialEq, Eq, Structural)]
pub enum ParentLocations {
    HasParents(CardLocation, CardLocation),
    King,
}

impl ParentLocations {
    pub fn min_distance(&self) -> (r: Option<usize>)
        ensures
            match self {
                ParentLocations::HasParents(p0, p1) => r == Some(
                    if p0.distance_spec() <= p1.distance_spec() {
                        p0.distance_spec()
                    } else {
                        p1.distance_spec()
                    },
                ),
                ParentLocations::King => r is None,
            },
    {
        match self {
            ParentLocations::HasParents(p0, p1) => {
                let d0 = p0.get_distance();
                let d1 = p1.get_distance();
                Some(
                    if d0 <= d1 {
                        d0
                    } else {
                        d1
                    },
                )
            },
            ParentLocations::King => None,
        }
    }
}

/// A uniform, comparable address of one card across the three container
/// kinds, carrying the move-cost ("distance") metric.
#[derive(Debug, PartialEq, Eq, Clone, Copy, Structural)]
pub enum CardLocation {
    Reserve(ReserveCardLocation),
    Foundation(FoundationCardLocation),
    Tableau(TableauCardLocation),
}

impl CardLocation {
    /// How many cards cover the target: zero for reserve slots, the depth
    /// for foundation and tableau positions.
    pub open spec fn distance_spec(self) -> usize {
        match self {
            CardLocation::Reserve(_) => 0,
            CardLocation::Foundation(l) => l.1.depth,
            CardLocation::Tableau(l) => l.1.depth,
        }
    }

    pub fn get_distance(&self) -> (r: usize)
        ensures
            r == self.distance_spec(),
    {
        match self {
            CardLocation::Reserve(_) => 0,
            CardLocation::Foundation(foundation_card_location) => {
                foundation_card_location.get_distance()
            },
            CardLocation::Tableau(tableau_card_location) => tableau_card_location.get_distance(),
        }
    }
}

/// Two locations address the same physical container.
pub open spec fn same_container(a: CardLocation, b: CardLocation) -> bool {
    match (a, b) {
        (CardLocation::Reserve(x), CardLocation::Reserve(y)) => x.0.0 == y.0.0,
        (CardLocation::Foundation(x), CardLocation::Foundation(y)) => x.0.0 == y.0.0,
        (CardLocation::Tableau(x), CardLocation::Tableau(y)) => x.0.0 == y.0.0,
        _ => false,
    }
}

/// A mathematical snapshot of the whole board.
#[verifier::ext_equal]
pub struct BoardView {
    pub tableau: Seq<Seq<Card>>,
    pub reserve: Seq<Option<Card>>,
    pub foundation: Seq<Seq<Card>>,
}

/// Every card on the board, in one canonical order.
pub open spec fn board_cards(v: BoardView) -> Seq<Card> {
    concat_cols(v.tableau) + concat_slots(v.reserve) + concat_cols(v.foundation)
}

/// The recoverable error for a position index out of range.
pub open spec fn missing_location_error(loc: CardLocation) -> GameError {
    match loc {
        CardLocation::Reserve(l) => GameError::NoSuchReserveSlot(l.0.0),
        CardLocation::Foundation(l) => GameError::NoSuchFoundationStack(l.0.0),
        CardLocation::Tableau(l) => GameError::NoSuchColumn(l.0.0),
    }
}

/// The recoverable error for a pick from an empty container.
pub open spec fn pick_empty_error(loc: CardLocation) -> GameError {
    match loc {
        CardLocation::Reserve(_) => GameError::TriedToPickEmptyReserveSlot,
        CardLocation::Foundation(_) => GameError::TriedToPickEmptyFoundationStack,
        CardLocation::Tableau(_) => GameError::TriedToPickEmptyColumn,
    }
}

impl BoardView {
    pub open spec fn in_range(self, loc: CardLocation) -> bool {
        match loc {
            CardLocation::Reserve(l) => l.0.0 < self.reserve.len(),
            CardLocation::Foundation(l) => l.0.0 < self.foundation.len(),
            CardLocation::Tableau(l) => l.0.0 < self.tableau.len(),
        }
    }

    /// How many cards the addressed container currently holds.
    pub open spec fn source_len(self, loc: CardLocation) -> nat {
        match loc {
            CardLocation::Reserve(l) => match self.reserve[l.0.0 as int] {
                Some(_) => 1nat,
                None => 0nat,
            },
            CardLocation::Foundation(l) => self.foundation[l.0.0 as int].len(),
            CardLocation::Tableau(l) => self.tableau[l.0.0 as int].len(),
        }
    }

    /// The liftable card of the addressed container.
    pub open spec fn source_top(self, loc: CardLocation) -> Card {
        match loc {
            CardLocation::Reserve(l) => match self.reserve[l.0.0 as int] {
                Some(c) => c,
                None => Card(Rank(0), crate::card::Suit::Spades),
            },
            CardLocation::Foundation(l) => self.foundation[l.0.0 as int].last(),
            CardLocation::Tableau(l) => self.tableau[l.0.0 as int].last(),
        }
    }

    /// The placement rule of the addressed container, judged against the
    /// board as it is now.
    pub open spec fn dest_accepts(self, loc: CardLocation, card: Card) -> bool {
        match loc {
            CardLocation::Reserve(l) => self.reserve[l.0.0 as int] is None,
            CardLocation::Foundation(l) => self.foundation[l.0.0 as int].len() == 0
                || foundation_pair_spec(self.foundation[l.0.0 as int].last(), card),
            CardLocation::Tableau(l) => self.tableau[l.0.0 as int].len() == 0
                || playable_pair_spec(self.tableau[l.0.0 as int].last(), card),
        }
    }

    /// The board after lifting the top card of the addressed container.
    pub open spec fn after_pick(self, loc: CardLocation) -> BoardView {
        match loc {
            CardLocation::Reserve(l) => BoardView {
                reserve: self.reserve.update(l.0.0 as int, None),
                ..self
            },
            CardLocation::Foundation(l) => BoardView {
                foundation: self.foundation.update(
                    l.0.0 as int,
                    self.foundation[l.0.0 as int].drop_last(),
                ),
                ..self
            },
            CardLocation::Tableau(l) => BoardView {
                tableau: self.tableau.update(l.0.0 as int, self.tableau[l.0.0 as int].drop_last()),
                ..self
            },
        }
    }

    /// The board after placing a card on the addressed container.
    pub open spec fn after_place(self, loc: CardLocation, card: Card) -> BoardView {
        match loc {
            CardLocation::Reserve(l) => BoardView {
                reserve: self.reserve.update(l.0.0 as int, Some(card)),
                ..self
            },
            CardLocation::Foundation(l) => BoardView {
                foundation: self.foundation.update(
                    l.0.0 as int,
                    self.foundation[l.0.0 as int].push(card),
                ),
                ..self
            },
            CardLocation::Tableau(l) => BoardView {
                tableau: self.tableau.update(l.0.0 as int, self.tableau[l.0.0 as int].push(card)),
                ..self
            },
        }
    }
}

/// What executing a card move does: the checks, in order, and the one
/// pick-then-place transition when all of them pass.
pub open spec fn move_card_spec(v: BoardView, from: CardLocation, to: CardLocation) -> Result<
    BoardView,
    GameError,
> {
    if !v.in_range(from) {
        Err(missing_location_error(from))
    } else if !v.in_range(to) {
        Err(missing_location_error(to))
    } else if (match to {
        CardLocation::Reserve(l) => v.reserve[l.0.0 as int] is Some,
        _ => false,
    }) {
        Err(GameError::ReserveSlotIsOccupied)
    } else if v.source_len(from) == 0 {
        Err(pick_empty_error(from))
    } else if !v.dest_accepts(to, v.source_top(from)) {
        Err(GameError::IllegalCardPlacement)
    } else {
        Ok(v.after_pick(from).after_place(to, v.source_top(from)))
    }
}

/// The board a legal move leads to; the board itself where the move is
/// refused.
pub open spec fn move_ok(v: BoardView, from: CardLocation, to: CardLocation) -> BoardView {
    match move_card_spec(v, from, to) {
        Ok(v2) => v2,
        Err(_) => v,
    }
}

/// The whole board: tableau, reserve and foundation.
pub struct Game {
    pub tableau: Tableau,
    pub reserve: Reserve,
    pub foundation: Foundation,
}

/// How often one concrete card occurs in one dealt column.
pub open spec fn raw_count_col(raw: Seq<RawCard>, c: Card) -> nat
    decreases raw.len(),
{
    if raw.len() == 0 {
        0
    } else {
        (if Card(Rank(raw[0].0), raw[0].1) == c {
            1nat
        } else {
            0nat
        }) + raw_count_col(raw.skip(1), c)
    }
}

/// How often one concrete card occurs in a whole deal.
pub open spec fn raw_count_cols(cols: Seq<Vec<RawCard>>, c: Card) -> nat
    decreases cols.len(),
{
    if cols.len() == 0 {
        0
    } else {
        raw_count_col(cols[0]@, c) + raw_count_cols(cols.skip(1), c)
    }
}

/// A column built from a deal holds each dealt card exactly as often as
/// the deal does.
proof fn lemma_col_count(cards: Seq<Card>, raw: Seq<RawCard>, c: Card)
    requires
        col_from_raw(cards, raw),
    ensures
        count_eq(cards, c) == raw_count_col(raw, c),
    decreases cards.len(),
{
    if cards.len() > 0 {
        assert(cards[0] == Card(Rank(raw[0].0), raw[0].1));
        assert(col_from_raw(cards.skip(1), raw.skip(1))) by {
            assert forall|j: int|
                0 <= j < raw.skip(1).len() implies cards.skip(1)[j] == Card(
                Rank((raw.skip(1)[j]).0),
                raw.skip(1)[j].1,
            ) by {
                assert(cards.skip(1)[j] == cards[j + 1]);
                assert(raw.skip(1)[j] == raw[j + 1]);
            }
        }
        lemma_col_count(cards.skip(1), raw.skip(1), c);
    }
}

/// A tableau built from a deal holds each dealt card exactly as often as
/// the deal does.
proof fn lemma_tab_count(cols: Seq<Seq<Card>>, raws: Seq<Vec<RawCard>>, c: Card)
    requires
        cols.len() == raws.len(),
        forall|k: int| 0 <= k < cols.len() ==> col_from_raw(#[trigger] cols[k], raws[k]@),
    ensures
        count_eq_cols(cols, c) == raw_count_cols(raws, c),
    decreases cols.len(),
{
    if cols.len() > 0 {
        lemma_col_count(cols[0], raws[0]@, c);
        assert(forall|k: int| 0 <= k < cols.skip(1).len() ==> cols.skip(1)[k] == cols[k + 1]);
        assert(forall|k: int| 0 <= k < raws.skip(1).len() ==> raws.skip(1)[k] == raws[k + 1]);
        lemma_tab_count(cols.skip(1), raws.skip(1), c);
    }
}

impl Game {
    pub open spec fn tab(&self) -> Seq<Seq<Card>> {
        self.tableau.cols_view()
    }

    pub open spec fn res(&self) -> Seq<Option<Card>> {
        self.reserve.slots_view()
    }

    pub open spec fn fnd(&self) -> Seq<Seq<Card>> {
        self.foundation.stacks_view()
    }

    pub open spec fn board(&self) -> BoardView {
        BoardView { tableau: self.tab(), reserve: self.res(), foundation: self.fnd() }
    }

    /// Every card on the board, in one canonical order.
    pub open spec fn all_cards(&self) -> Seq<Card> {
        board_cards(self.board())
    }

    /// Structural validity of the three depots, plus card conservation:
    /// every well-formed card is present exactly once.
    pub open spec fn wf(&self) -> bool {
        &&& self.tableau.wf()
        &&& self.reserve.wf()
        &&& self.foundation.wf()
        &&& forall|c: Card| c.wf() ==> #[trigger] count_eq(self.all_cards(), c) == 1
    }

    /// A location is valid for the current board and addresses a card that
    /// matches the descriptor.
    pub open spec fn location_matches(&self, loc: CardLocation, prox: ProximateCard) -> bool {
        match loc {
            CardLocation::Reserve(l) => self.reserve.loc_is_match(l, prox),
            CardLocation::Foundation(l) => self.foundation.loc_is_match(l, prox),
            CardLocation::Tableau(l) => self.tableau.loc_is_match(l, prox),
        }
    }

    /// What a correct parent search reports for a card.
    pub open spec fn parent_search_ok(&self, card: Card, r: ParentLocations) -> bool {
        match r {
            ParentLocations::King => card.0.0 == KING,
            ParentLocations::HasParents(l1, l2) => card.0.0 < KING && l1 != l2
                && self.location_matches(l1, card.parent_descriptor_spec())
                && self.location_matches(l2, card.parent_descriptor_spec()),
        }
    }
}

/// The three container views hold only well-formed cards, so the whole
/// board does.
proof fn lemma_game_all_wf(g: &Game)
    requires
        g.tableau.wf(),
        g.reserve.wf(),
        g.foundation.wf(),
    ensures
        all_wf(g.all_cards()),
        crate::counting::all_wf_cols(g.tab()),
        crate::counting::all_wf_slots(g.res()),
        crate::counting::all_wf_cols(g.fnd()),
{
    assert forall|i: int| 0 <= i < g.tab().len() implies all_wf(#[trigger] g.tab()[i]) by {
        assert(g.tab()[i] == g.tableau.0@[i].cards@);
    }
    assert forall|i: int|
        0 <= i < g.res().len() implies match #[trigger] g.res()[i] {
        Some(c) => c.wf(),
        None => true,
    } by {
        assert(g.res()[i] == g.reserve.0@[i].1);
    }
    assert forall|i: int| 0 <= i < g.fnd().len() implies all_wf(#[trigger] g.fnd()[i]) by {
        assert(g.fnd()[i] == g.foundation.0@[i].1@);
    }
    lemma_all_wf_concat_cols(g.tab());
    lemma_all_wf_concat_slots(g.res());
    lemma_all_wf_concat_cols(g.fnd());
    let a = concat_cols(g.tab());
    let b = concat_slots(g.res());
    let d = concat_cols(g.fnd());
    assert forall|i: int| 0 <= i < g.all_cards().len() implies g.all_cards()[i].wf() by {
        if i < a.len() {
            assert(g.all_cards()[i] == a[i]);
        } else if i < a.len() + b.len() {
            assert(g.all_cards()[i] == b[i - a.len()]);
        } else {
            assert(g.all_cards()[i] == d[i - a.len() - b.len()]);
        }
    }
}

/// One card's occurrences on the board, split by depot.
proof fn lemma_board_count(v: BoardView, c: Card)
    ensures
        count_eq(board_cards(v), c) == count_eq_cols(v.tableau, c) + count_eq_slots(v.reserve, c)
            + count_eq_cols(v.foundation, c),
{
    let a = concat_cols(v.tableau);
    let b = concat_slots(v.reserve);
    let d = concat_cols(v.foundation);
    lemma_count_eq_concat(a + b, d, c);
    lemma_count_eq_concat(a, b, c);
    lemma_count_eq_concat_cols(v.tableau, c);
    lemma_count_eq_concat_slots(v.reserve, c);
    lemma_count_eq_concat_cols(v.foundation, c);
}

/// A descriptor's matches on the board, split by depot.
proof fn lemma_board_match_count(v: BoardView, prox: ProximateCard)
    ensures
        count_matches(board_cards(v), prox) == count_matches_cols(v.tableau, prox)
            + count_matches_slots(v.reserve, prox) + count_matches_cols(v.foundation, prox),
{
    let a = concat_cols(v.tableau);
    let b = concat_slots(v.reserve);
    let d = concat_cols(v.foundation);
    lemma_count_matches_concat(a + b, d, prox);
    lemma_count_matches_concat(a, b, prox);
    lemma_count_matches_concat_cols(v.tableau, prox);
    lemma_count_matches_concat_slots(v.reserve, prox);
    lemma_count_matches_concat_cols(v.foundation, prox);
}

/// Lifting a card removes exactly one occurrence of it from the board.
proof fn lemma_pick_count(v: BoardView, from: CardLocation, c: Card)
    requires
        v.in_range(from),
        v.source_len(from) > 0,
    ensures
        count_eq(board_cards(v.after_pick(from)), c) + (if v.source_top(from) == c {
            1nat
        } else {
            0nat
        }) == count_eq(board_cards(v), c),
{
    lemma_board_count(v, c);
    lemma_board_count(v.after_pick(from), c);
    match from {
        CardLocation::Reserve(l) => {
            lemma_count_eq_slots_update(v.reserve, l.0.0 as int, None, c);
        },
        CardLocation::Foundation(l) => {
            let i = l.0.0 as int;
            lemma_count_eq_cols_update(v.foundation, i, v.foundation[i].drop_last(), c);
            lemma_count_eq_drop_last(v.foundation[i], c);
        },
        CardLocation::Tableau(l) => {
            let i = l.0.0 as int;
            lemma_count_eq_cols_update(v.tableau, i, v.tableau[i].drop_last(), c);
            lemma_count_eq_drop_last(v.tableau[i], c);
        },
    }
}

/// Placing a card adds exactly one occurrence of it to the board (a
/// reserve destination must be empty: placement there never overwrites).
proof fn lemma_place_count(v: BoardView, to: CardLocation, x: Card, c: Card)
    requires
        v.in_range(to),
        match to {
            CardLocation::Reserve(l) => v.reserve[l.0.0 as int] is None,
            _ => true,
        },
    ensures
        count_eq(board_cards(v.after_place(to, x)), c) == count_eq(board_cards(v), c) + (if x
            == c {
            1nat
        } else {
            0nat
        }),
{
    lemma_board_count(v, c);
    lemma_board_count(v.after_place(to, x), c);
    match to {
        CardLocation::Reserve(l) => {
            lemma_count_eq_slots_update(v.reserve, l.0.0 as int, Some(x), c);
        },
        CardLocation::Foundation(l) => {
            let i = l.0.0 as int;
            lemma_count_eq_cols_update(v.foundation, i, v.foundation[i].push(x), c);
            lemma_count_eq_push(v.foundation[i], x, c);
        },
        CardLocation::Tableau(l) => {
            let i = l.0.0 as int;
            lemma_count_eq_cols_update(v.tableau, i, v.tableau[i].push(x), c);
            lemma_count_eq_push(v.tableau[i], x, c);
        },
    }
}

/// A legal move leaves every card's occurrence count on the board
/// unchanged: cards are neither created nor destroyed.
pub proof fn lemma_move_preserves_counts(v: BoardView, from: CardLocation, to: CardLocation)
    requires
        move_card_spec(v, from, to) is Ok,
    ensures
        forall|c: Card| #[trigger] count_eq(board_cards(move_ok(v, from, to)), c) == count_eq(
            board_cards(v),
            c,
        ),
{
    let x = v.source_top(from);
    assert forall|c: Card| #[trigger] count_eq(board_cards(move_ok(v, from, to)), c) == count_eq(
        board_cards(v),
        c,
    ) by {
        lemma_pick_count(v, from, c);
        assert(v.after_pick(from).in_range(to));
        assert(match to {
            CardLocation::Reserve(l) => v.after_pick(from).reserve[l.0.0 as int] is None,
            _ => true,
        });
        lemma_place_count(v.after_pick(from), to, x, c);
    }
}

impl Game {
    /// Build the initial board from the deal: reserve and foundation start
    /// empty, and the dealt columns must together hold the full deck, each
    /// card exactly once.
    pub fn new(raw_columns: Vec<Vec<RawCard>>) -> (r: Self)
        requires
            raw_columns@.len() == crate::tableau::NUMBER_OF_COLUMNS_IN_TABLEAU,
            forall|i: int, j: int|
                0 <= i < raw_columns@.len() && 0 <= j < raw_columns@[i]@.len() ==> 1 <= (
                #[trigger] raw_columns@[i]@[j]).0 <= KING,
            forall|c: Card| c.wf() ==> #[trigger] raw_count_cols(raw_columns@, c) == 1,
        ensures
            r.wf(),
            forall|i: int|
                0 <= i < r.tab().len() ==> col_from_raw(#[trigger] r.tab()[i], raw_columns@[i]@),
            forall|i: int| 0 <= i < r.res().len() ==> (#[trigger] r.res()[i]) is None,
            forall|i: int| 0 <= i < r.fnd().len() ==> (#[trigger] r.fnd()[i]).len() == 0,
    {
        let ghost raws = raw_columns@;
        let tableau = Tableau::new(raw_columns);
        let reserve = Reserve::new();
        let foundation = Foundation::new();
        let g = Game { tableau, reserve, foundation };
        proof {
            assert forall|k: int|
                0 <= k < g.tab().len() implies col_from_raw(#[trigger] g.tab()[k], raws[k]@) by {
                assert(g.tab()[k] == g.tableau.0@[k].cards@);
            }
            assert forall|c: Card| c.wf() implies #[trigger] count_eq(g.all_cards(), c) == 1 by {
                lemma_board_count(g.board(), c);
                lemma_count_eq_slots_none(g.res(), c);
                lemma_count_eq_cols_empty(g.fnd(), c);
                lemma_tab_count(g.tab(), raws, c);
            }
        }
        g
    }

    /// The two locations that could receive this card, or the terminal
    /// answer for a king. Under card conservation a non-king's search
    /// always finds exactly two hits, so the fatal under-count condition
    /// of the error model is proved unreachable.
    pub fn find_parents(&self, card: &Card) -> (r: ParentLocations)
        requires
            self.wf(),
            card.wf(),
        ensures
            self.parent_search_ok(*card, r),
            r is King <==> card.0.0 == KING,
    {
        let prox = match card.get_parent_data() {
            Some(prox_card) => prox_card,
            None => {
                return ParentLocations::King;
            },
        };
        proof {
            lemma_game_all_wf(self);
            lemma_count_matches_split(self.all_cards(), prox);
            lemma_descriptor_cards(prox, *card);
            assert(descriptor_cards(prox).0.wf());
            assert(descriptor_cards(prox).1.wf());
            assert(count_matches(self.all_cards(), prox) == 2);
            lemma_board_match_count(self.board(), prox);
        }
        let ghost ct = count_matches_cols(self.tab(), prox);
        let ghost cf = count_matches_cols(self.fnd(), prox);
        let ghost cr = count_matches_slots(self.res(), prox);
        let tp = self.tableau.find_prox_pair(&prox);
        let fp = self.foundation.find_prox_pair(&prox);
        let rp = self.reserve.find_prox_pair(&prox);
        let mut found: Ternary<CardLocation> = Ternary::Zero;
        match tp {
            Ternary::Zero => {},
            Ternary::One(a) => {
                proof {
                    assert(tp@ =~= seq![a]);
                    assert(tp@[0] == a);
                }
                found = Ternary::One(CardLocation::Tableau(a));
            },
            Ternary::Two(a, b) => {
                proof {
                    assert(tp@ =~= seq![a, b]);
                    assert(tp@[0] == a && tp@[1] == b);
                }
                found = Ternary::Two(CardLocation::Tableau(a), CardLocation::Tableau(b));
            },
        }
        match fp {
            Ternary::Zero => {},
            Ternary::One(a) => {
                proof {
                    assert(fp@ =~= seq![a]);
                    assert(fp@[0] == a);
                }
                match found {
                    Ternary::Zero => {
                        found = Ternary::One(CardLocation::Foundation(a));
                    },
                    Ternary::One(x) => {
                        found = Ternary::Two(x, CardLocation::Foundation(a));
                    },
                    Ternary::Two(_, _) => {},
                }
            },
            Ternary::Two(a, b) => {
                proof {
                    assert(fp@ =~= seq![a, b]);
                    assert(fp@[0] == a && fp@[1] == b);
                }
                match found {
                    Ternary::Zero => {
                        found = Ternary::Two(
                            CardLocation::Foundation(a),
                            CardLocation::Foundation(b),
                        );
                    },
                    Ternary::One(x) => {
                        found = Ternary::Two(x, CardLocation::Foundation(a));
                    },
                    Ternary::Two(_, _) => {},
                }
            },
        }
        match rp {
            Ternary::Zero => {},
            Ternary::One(a) => {
                proof {
                    assert(rp@ =~= seq![a]);
                    assert(rp@[0] == a);
                }
                match found {
                    Ternary::Zero => {
                        found = Ternary::One(CardLocation::Reserve(a));
                    },
                    Ternary::One(x) => {
                        found = Ternary::Two(x, CardLocation::Reserve(a));
                    },
                    Ternary::Two(_, _) => {},
                }
            },
            Ternary::Two(a, b) => {
                proof {
                    assert(rp@ =~= seq![a, b]);
                    assert(rp@[0] == a && rp@[1] == b);
                }
                match found {
                    Ternary::Zero => {
                        found = Ternary::Two(CardLocation::Reserve(a), CardLocation::Reserve(b));
                    },
                    Ternary::One(x) => {
                        found = Ternary::Two(x, CardLocation::Reserve(a));
                    },
                    Ternary::Two(_, _) => {},
                }
            },
        }
        match found {
            Ternary::Two(l1, l2) => ParentLocations::HasParents(l1, l2),
            _ => {
                proof {
                    assert(false);
                }
                ParentLocations::King
            },
        }
    }

    /// For every exposed tableau card, where its possible parents sit.
    pub fn find_parents_for_top_cards(&self) -> (r: Vec<(Card, ParentLocations)>)
        requires
            self.wf(),
        ensures
            r@.len() == crate::tableau::tableau_tops(self.tab()).len(),
            forall|i: int|
                0 <= i < r@.len() ==> (#[trigger] r@[i]).0 == crate::tableau::tableau_tops(
                    self.tab(),
                )[i] && self.parent_search_ok(r@[i].0, r@[i].1),
    {
        let tops = self.tableau.top_cards();
        proof {
            lemma_game_all_wf(self);
            crate::tableau::lemma_tableau_tops_wf(self.tab());
        }
        let mut out: Vec<(Card, ParentLocations)> = Vec::new();
        let mut i: usize = 0;
        while i < tops.len()
            invariant
                self.wf(),
                tops@ == crate::tableau::tableau_tops(self.tab()),
                all_wf(tops@),
                i <= tops@.len(),
                out@.len() == i,
                forall|k: int|
                    0 <= k < out@.len() ==> (#[trigger] out@[k]).0 == tops@[k]
                        && self.parent_search_ok(out@[k].0, out@[k].1),
            decreases tops@.len() - i,
        {
            let card = tops[i];
            let parents = self.find_parents(&card);
            out.push((card, parents));
            i = i + 1;
        }
        out
    }

    /// All currently liftable single-card picks across the three depots,
    /// reserve first, then foundation, then tableau.
    pub fn get_valid_card_picks(&self) -> (r: Vec<PickableCard>)
        requires
            self.wf(),
        ensures
            r@ == crate::reserve::reserve_picks(self.res()) + crate::foundation::foundation_picks(
                self.fnd(),
            ) + crate::tableau::tableau_picks(self.tab()),
    {
        let mut out = self.reserve.get_valid_card_picks();
        let mut f = self.foundation.get_valid_card_picks();
        let mut t = self.tableau.get_valid_card_picks();
        out.append(&mut f);
        out.append(&mut t);
        out
    }

    /// All legal destinations for the picked card across the three depots.
    pub fn get_valid_card_puts(&self, pick: &PickableCard) -> (r: Vec<CardMove>)
        requires
            self.wf(),
            pick.0.wf(),
        ensures
            r@ == crate::reserve::reserve_puts(self.res(), *pick)
                + crate::foundation::foundation_puts(self.fnd(), *pick)
                + crate::tableau::tableau_puts(self.tab(), *pick),
    {
        let mut out = self.reserve.get_valid_card_puts(pick);
        let mut f = self.foundation.get_valid_card_puts(pick);
        let mut t = self.tableau.get_valid_card_puts(pick);
        out.append(&mut f);
        out.append(&mut t);
        out
    }

    /// The largest liftable stack of every non-empty tableau column.
    pub fn get_valid_stack_picks(&self) -> (r: Vec<PickableStack>)
        requires
            self.wf(),
        ensures
            r@ == crate::tableau::tableau_stack_picks(self.tab()),
    {
        self.tableau.get_valid_stack_picks()
    }
}

impl Game {
    /// Execute a validated card move: resolve both locations, re-check the
    /// destination's placement rule against the current board, then pick
    /// from the source and place on the destination — or report the first
    /// failing check with the board untouched. A move whose source and
    /// destination are the same container always fails one of the checks
    /// (see `lemma_self_move_rejected`), so it is rejected before any
    /// mutation.
    #[verifier::rlimit(100)]
    pub fn move_card(&mut self, card_move: CardMove) -> (r: Result<(), GameError>)
        requires
            old(self).wf(),
        ensures
            final(self).wf(),
            match move_card_spec(old(self).board(), card_move.from, card_move.to) {
                Ok(v2) => r == Ok::<(), GameError>(()) && final(self).board() == v2,
                Err(e) => r == Err::<(), GameError>(e) && final(self).board() == old(self).board(),
            },
    {
        let ghost v0 = self.board();
        match card_move.from {
            CardLocation::Reserve(l) => {
                if l.0.0 >= self.reserve.0.len() {
                    return Err(GameError::NoSuchReserveSlot(l.0.0));
                }
            },
            CardLocation::Foundation(l) => {
                if l.0.0 >= self.foundation.0.len() {
                    return Err(GameError::NoSuchFoundationStack(l.0.0));
                }
            },
            CardLocation::Tableau(l) => {
                if l.0.0 >= self.tableau.0.len() {
                    return Err(GameError::NoSuchColumn(l.0.0));
                }
            },
        }
        match card_move.to {
            CardLocation::Reserve(l) => {
                if l.0.0 >= self.reserve.0.len() {
                    return Err(GameError::NoSuchReserveSlot(l.0.0));
                }
                proof {
                    assert(self.res()[l.0.0 as int] == self.reserve.0@[l.0.0 as int].1);
                }
                if self.reserve.0[l.0.0].1.is_some() {
                    return Err(GameError::ReserveSlotIsOccupied);
                }
            },
            CardLocation::Foundation(l) => {
                if l.0.0 >= self.foundation.0.len() {
                    return Err(GameError::NoSuchFoundationStack(l.0.0));
                }
            },
            CardLocation::Tableau(l) => {
                if l.0.0 >= self.tableau.0.len() {
                    return Err(GameError::NoSuchColumn(l.0.0));
                }
            },
        }
        let top: Card = match card_move.from {
            CardLocation::Reserve(l) => {
                proof {
                    assert(self.res()[l.0.0 as int] == self.reserve.0@[l.0.0 as int].1);
                }
                match &self.reserve.0[l.0.0].1 {
                    Some(c) => *c,
                    None => {
                        return Err(GameError::TriedToPickEmptyReserveSlot);
                    },
                }
            },
            CardLocation::Foundation(l) => {
                proof {
                    assert(self.fnd()[l.0.0 as int] == self.foundation.0@[l.0.0 as int].1@);
                }
                match self.foundation.0[l.0.0].get_top_card() {
                    Some(c) => c,
                    None => {
                        return Err(GameError::TriedToPickEmptyFoundationStack);
                    },
                }
            },
            CardLocation::Tableau(l) => {
                proof {
                    assert(self.tab()[l.0.0 as int] == self.tableau.0@[l.0.0 as int].cards@);
                }
                match self.tableau.0[l.0.0].get_top_card() {
                    Some(c) => c,
                    None => {
                        return Err(GameError::TriedToPickEmptyColumn);
                    },
                }
            },
        };
        proof {
            assert(top == v0.source_top(card_move.from));
            assert(top.wf()) by {
                match card_move.from {
                    CardLocation::Reserve(l) => {
                        assert(self.res()[l.0.0 as int] == self.reserve.0@[l.0.0 as int].1);
                    },
                    CardLocation::Foundation(l) => {
                        assert(self.fnd()[l.0.0 as int] == self.foundation.0@[l.0.0 as int].1@);
                        assert(self.foundation.0@[l.0.0 as int].1@.last().wf());
                    },
                    CardLocation::Tableau(l) => {
                        assert(self.tab()[l.0.0 as int] == self.tableau.0@[l.0.0 as int].cards@);
                        assert(self.tableau.0@[l.0.0 as int].cards@.last().wf());
                    },
                }
            }
        }
        let accepts: bool = match card_move.to {
            CardLocation::Reserve(_) => true,
            CardLocation::Foundation(l) => {
                proof {
                    assert(self.fnd()[l.0.0 as int] == self.foundation.0@[l.0.0 as int].1@);
                }
                match self.foundation.0[l.0.0].get_top_card() {
                    Some(t) => {
                        proof {
                            assert(self.foundation.0@[l.0.0 as int].1@.last().wf());
                        }
                        crate::foundation::FoundationStack::is_playable_pair(&t, &top)
                    },
                    None => true,
                }
            },
            CardLocation::Tableau(l) => {
                proof {
                    assert(self.tab()[l.0.0 as int] == self.tableau.0@[l.0.0 as int].cards@);
                }
                match self.tableau.0[l.0.0].get_top_card() {
                    Some(t) => crate::tableau::Column::is_playable_pair(&t, &top),
                    None => true,
                }
            },
        };
        if !accepts {
            return Err(GameError::IllegalCardPlacement);
        }
        proof {
            assert(v0.dest_accepts(card_move.to, top));
            assert(move_card_spec(v0, card_move.from, card_move.to) == Ok::<BoardView, GameError>(
                v0.after_pick(card_move.from).after_place(card_move.to, top),
            ));
        }
        let picked: Card = match card_move.from {
            CardLocation::Reserve(l) => self.reserve.take_at(l.0.0),
            CardLocation::Foundation(l) => self.foundation.take_at(l.0.0),
            CardLocation::Tableau(l) => self.tableau.take_at(l.0.0),
        };
        let ghost v1 = v0.after_pick(card_move.from);
        proof {
            assert(self.board() =~= v1);
            assert(picked == top);
        }
        match card_move.to {
            CardLocation::Reserve(l) => {
                proof {
                    assert(self.res()[l.0.0 as int] is None);
                }
                self.reserve.put_at(l.0.0, picked);
                proof {
                    assert(self.res() == v1.reserve.update(l.0.0 as int, Some(top)));
                    assert(self.tab() == v1.tableau && self.fnd() == v1.foundation);
                }
            },
            CardLocation::Foundation(l) => {
                self.foundation.put_at(l.0.0, picked);
                proof {
                    assert(self.fnd() == v1.foundation.update(
                        l.0.0 as int,
                        v1.foundation[l.0.0 as int].push(top),
                    ));
                    assert(self.tab() == v1.tableau && self.res() == v1.reserve);
                }
            },
            CardLocation::Tableau(l) => {
                self.tableau.put_at(l.0.0, picked);
                proof {
                    assert(self.tab() == v1.tableau.update(
                        l.0.0 as int,
                        v1.tableau[l.0.0 as int].push(top),
                    ));
                    assert(self.fnd() == v1.foundation && self.res() == v1.reserve);
                }
            },
        }
        proof {
            assert(self.board() =~= v1.after_place(card_move.to, top));
            lemma_move_preserves_counts(v0, card_move.from, card_move.to);
            assert forall|c: Card| c.wf() implies #[trigger] count_eq(self.all_cards(), c)
                == 1 by {
                assert(count_eq(board_cards(move_ok(v0, card_move.from, card_move.to)), c)
                    == count_eq(board_cards(v0), c));
                assert(old(self).all_cards() == board_cards(v0));
                assert(count_eq(old(self).all_cards(), c) == 1);
                assert(self.board() == move_ok(v0, card_move.from, card_move.to));
            }
        }
        Ok(())
    }
}

/// Card conservation: a well-formed board holds exactly fifty-two cards,
/// every well-formed card exactly once. Together with `move_card`'s
/// postconditions this holds after any sequence of legal moves.
pub proof fn lemma_card_conservation(g: &Game)
    requires
        g.wf(),
    ensures
        g.all_cards().len() == 52,
        forall|c: Card| c.wf() ==> #[trigger] count_eq(g.all_cards(), c) == 1,
{
    lemma_game_all_wf(g);
    lemma_full_deck_len(g.all_cards());
}

/// A move whose source and destination are the same container is always
/// rejected with a typed error, before any mutation: an out-of-range
/// position fails the range checks, an occupied reserve destination the
/// occupancy check, an empty source the emptiness check, and otherwise the
/// destination's top card is the source's own top, which no placement rule
/// accepts — a card is neither of the opposite colour to itself nor one
/// rank above itself.
pub proof fn lemma_self_move_rejected(v: BoardView, from: CardLocation, to: CardLocation)
    requires
        same_container(from, to),
    ensures
        move_card_spec(v, from, to) is Err,
{
    if v.in_range(from) && v.in_range(to) && v.source_len(from) > 0 {
        match (from, to) {
            (CardLocation::Reserve(x), CardLocation::Reserve(y)) => {},
            (CardLocation::Foundation(x), CardLocation::Foundation(y)) => {
                assert(!foundation_pair_spec(v.foundation[x.0.0 as int].last(), v.source_top(from)));
            },
            (CardLocation::Tableau(x), CardLocation::Tableau(y)) => {
                assert(!playable_pair_spec(v.tableau[x.0.0 as int].last(), v.source_top(from)));
            },
            _ => {},
        }
    }
}

/// Round trip: picking a card from location `a` and placing it at `b`,
/// then picking it from `b` and placing it back at `a` — when both moves
/// are legal — restores the whole board, in particular the original tops
/// of both containers.
pub proof fn lemma_move_round_trip(v: BoardView, a: CardLocation, b: CardLocation)
    requires
        move_card_spec(v, a, b) is Ok,
        move_card_spec(move_ok(v, a, b), b, a) is Ok,
    ensures
        move_ok(move_ok(v, a, b), b, a) == v,
{
    assert(!same_container(a, b)) by {
        if same_container(a, b) {
            lemma_self_move_rejected(v, a, b);
        }
    }
    let c = v.source_top(a);
    let v1 = move_ok(v, a, b);
    let c2 = v1.source_top(b);
    let v2 = move_ok(v1, b, a);
    assert(c2 == c) by {
        match b {
            CardLocation::Reserve(l) => {},
            CardLocation::Foundation(l) => {
                assert(v1.foundation[l.0.0 as int].last() == c);
            },
            CardLocation::Tableau(l) => {
                assert(v1.tableau[l.0.0 as int].last() == c);
            },
        }
    }
    assert(v2 =~~= v) by {
        match a {
            CardLocation::Reserve(l) => {
                let i = l.0.0 as int;
                assert(v2.reserve =~= v.reserve);
            },
            CardLocation::Foundation(l) => {
                let i = l.0.0 as int;
                assert(v.foundation[i].drop_last().push(c) =~= v.foundation[i]);
                assert(v2.foundation =~~= v.foundation);
            },
            CardLocation::Tableau(l) => {
                let i = l.0.0 as int;
                assert(v.tableau[i].drop_last().push(c) =~= v.tableau[i]);
                assert(v2.tableau =~~= v.tableau);
            },
        }
        match b {
            CardLocation::Reserve(l) => {
                let j = l.0.0 as int;
                assert(v2.reserve =~= v.reserve);
            },
            CardLocation::Foundation(l) => {
                let j = l.0.0 as int;
                assert(v1.foundation[j].drop_last() =~= v.foundation[j]);
                assert(v2.foundation =~~= v.foundation);
            },
            CardLocation::Tableau(l) => {
                let j = l.0.0 as int;
                assert(v1.tableau[j].drop_last() =~= v.tableau[j]);
                assert(v2.tableau =~~= v.tableau);
            },
        }
    }
}

/// The reserve locations among a list, in order.
pub open spec fn reserve_locs(ls: Seq<CardLocation>) -> Seq<ReserveCardLocation>
    decreases ls.len(),
{
    if ls.len() == 0 {
        Seq::empty()
    } else {
        reserve_locs(ls.drop_last()) + (match ls.last() {
            CardLocation::Reserve(l) => seq![l],
            _ => Seq::empty(),
        })
    }
}

/// The foundation locations among a list, in order.
pub open spec fn foundation_locs(ls: Seq<CardLocation>) -> Seq<FoundationCardLocation>
    decreases ls.len(),
{
    if ls.len() == 0 {
        Seq::empty()
    } else {
        foundation_locs(ls.drop_last()) + (match ls.last() {
            CardLocation::Foundation(l) => seq![l],
            _ => Seq::empty(),
        })
    }
}

/// The locations of every card above the given tableau location, base
/// upward, shallowest above first.
pub open spec fn child_locs_spec(l: TableauCardLocation) -> Seq<TableauCardLocation> {
    Seq::new(
        l.1.depth as nat,
        |d: int|
            TableauCardLocation(
                l.0,
                crate::tableau::ColumnDepth { column_size: l.1.column_size, depth: d as usize },
            ),
    )
}

/// The tableau locations among a list, each expanded to cover the cards
/// above it as well, in order.
pub open spec fn tableau_locs_expanded(ls: Seq<CardLocation>) -> Seq<TableauCardLocation>
    decreases ls.len(),
{
    if ls.len() == 0 {
        Seq::empty()
    } else {
        tableau_locs_expanded(ls.drop_last()) + (match ls.last() {
            CardLocation::Tableau(l) => child_locs_spec(l).push(l),
            _ => Seq::empty(),
        })
    }
}

/// The renderer's view of the whole board for a set of locations to
/// reveal: a revealed tableau location also reveals the cards above it.
pub struct GameShownCards {
    pub reserve: ReserveShownCards,
    pub foundation: FoundationShownCards,
    pub tableau: TableauShownCards,
}

impl Game {
    /// Classify every cell of the board for a renderer, revealing the
    /// listed locations. Listed foundation locations must be valid for the
    /// current board.
    pub fn show_cards(&self, card_locations: &Vec<CardLocation>) -> (r: GameShownCards)
        requires
            self.wf(),
            forall|k: int|
                0 <= k < card_locations@.len() ==> match #[trigger] card_locations@[k] {
                    CardLocation::Foundation(p) => p.0.0 < self.fnd().len() && p.1.depth
                        < self.fnd()[p.0.0 as int].len(),
                    _ => true,
                },
        ensures
            r.reserve.0@.len() == self.res().len(),
            forall|i: int|
                0 <= i < r.reserve.0@.len() ==> r.reserve.0@[i] == (
                if crate::reserve::reserve_position_listed(
                    reserve_locs(card_locations@),
                    i,
                ) {
                    match self.res()[i] {
                        Some(c) => crate::card::ShownCard::Revealed(c),
                        None => crate::card::ShownCard::Hidden,
                    }
                } else {
                    crate::card::ShownCard::Blank
                }),
            r.foundation.0@.len() == self.fnd().len(),
            forall|i: int|
                0 <= i < r.foundation.0@.len() ==> r.foundation.0@[i] == (
                match crate::foundation::foundation_listed_at(
                    foundation_locs(card_locations@),
                    i,
                ) {
                    Some(p) => crate::card::ShownCard::Revealed(
                        self.fnd()[i][self.fnd()[i].len() - 1 - p.1.depth],
                    ),
                    None => crate::card::ShownCard::Blank,
                }),
            r.tableau.0@.len() == crate::tableau::max_col_len(self.tab()),
            forall|row: int|
                0 <= row < r.tableau.0@.len() ==> (#[trigger] r.tableau.0@[row]).len()
                    == self.tab().len(),
            forall|row: int, pos: int|
                0 <= row < r.tableau.0@.len() && 0 <= pos < self.tab().len() ==> (
                #[trigger] r.tableau.0@[row][pos]) == crate::tableau::tableau_cell(
                    self.tab(),
                    tableau_locs_expanded(card_locations@),
                    pos,
                    row,
                ),
    {
        let ghost ls = card_locations@;
        let mut rls: Vec<ReserveCardLocation> = Vec::new();
        let mut fls: Vec<FoundationCardLocation> = Vec::new();
        let mut tls: Vec<TableauCardLocation> = Vec::new();
        let mut k: usize = 0;
        while k < card_locations.len()
            invariant
                self.wf(),
                ls == card_locations@,
                k <= ls.len(),
                forall|j: int|
                    0 <= j < ls.len() ==> match #[trigger] ls[j] {
                        CardLocation::Foundation(p) => p.0.0 < self.fnd().len() && p.1.depth
                            < self.fnd()[p.0.0 as int].len(),
                        _ => true,
                    },
                rls@ == reserve_locs(ls.take(k as int)),
                fls@ == foundation_locs(ls.take(k as int)),
                tls@ == tableau_locs_expanded(ls.take(k as int)),
                forall|j: int|
                    0 <= j < fls@.len() ==> (#[trigger] fls@[j]).0.0 < self.fnd().len() && fls@[j].1.depth
                        < self.fnd()[fls@[j].0.0 as int].len(),
            decreases ls.len() - k,
        {
            proof {
                assert(ls.take(k + 1).drop_last() =~= ls.take(k as int));
                assert(ls.take(k + 1).last() == ls[k as int]);
            }
            match card_locations[k] {
                CardLocation::Reserve(l) => {
                    rls.push(l);
                    proof {
                        assert(rls@ =~= reserve_locs(ls.take(k + 1)));
                        assert(fls@ =~= foundation_locs(ls.take(k + 1)));
                        assert(tls@ =~= tableau_locs_expanded(ls.take(k + 1)));
                    }
                },
                CardLocation::Foundation(l) => {
                    fls.push(l);
                    proof {
                        assert(rls@ =~= reserve_locs(ls.take(k + 1)));
                        assert(fls@ =~= foundation_locs(ls.take(k + 1)));
                        assert(tls@ =~= tableau_locs_expanded(ls.take(k + 1)));
                    }
                },
                CardLocation::Tableau(l) => {
                    let mut kids = l.get_child_locations();
                    proof {
                        assert(kids@ =~= child_locs_spec(l));
                    }
                    tls.append(&mut kids);
                    tls.push(l);
                    proof {
                        assert(rls@ =~= reserve_locs(ls.take(k + 1)));
                        assert(fls@ =~= foundation_locs(ls.take(k + 1)));
                        assert(tls@ =~= tableau_locs_expanded(ls.take(k + 1)));
                    }
                },
            }
            k = k + 1;
        }
        proof {
            assert(ls.take(ls.len() as int) =~= ls);
        }
        let reserve_cards = self.reserve.show_cards(&rls);
        let foundation_cards = self.foundation.show_cards(&fls);
        let tableau_cards = self.tableau.show_cards(&tls);
        GameShownCards {
            reserve: reserve_cards,
            foundation: foundation_cards,
            tableau: tableau_cards,
        }
    }
}

} // verus!
