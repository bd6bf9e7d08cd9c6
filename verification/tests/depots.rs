use freecell_engine::card::{Card, Color, ProximateCard, Rank, ShownCard, Suit};
use freecell_engine::error::GameError;
use freecell_engine::foundation::{FoundationDepth, FoundationStack};
use freecell_engine::game::CardLocation;
use freecell_engine::pickables::{HoldsCard, HoldsStack, PickableCard, PickableStack};
use freecell_engine::reserve::{Reserve, ReserveCardLocation, ReservePosition, ReserveSlot};
use freecell_engine::ternary::Ternary;
use freecell_engine::tableau::{Column, ColumnDepth, StateToken, TableauCardLocation, TableauPosition};

fn pick_of(card: Card) -> PickableCard {
    PickableCard::new(
        &card,
        CardLocation::Reserve(ReserveCardLocation(ReservePosition(0))),
    )
}

#[test]
fn column_placement_rule() {
    let two_h = Card::new(2, Suit::Hearts);

    let empty = Column::new(1, vec![]);
    assert!(empty.try_get_card_move(&pick_of(two_h)).is_some());

    let three_h_top = Column::new(2, vec![(3, Suit::Hearts)]);
    assert!(three_h_top.try_get_card_move(&pick_of(two_h)).is_none());

    let three_s_top = Column::new(3, vec![(3, Suit::Spades)]);
    let m = three_s_top.try_get_card_move(&pick_of(two_h)).expect("legal placement");
    assert_eq!(
        m.to,
        CardLocation::Tableau(TableauCardLocation(
            TableauPosition(3),
            ColumnDepth { column_size: 1, depth: 0 },
        ))
    );
}

#[test]
fn column_pick_errors_and_success() {
    let mut column = Column::new(0, vec![(7, Suit::Clubs)]);
    assert_eq!(column.pick_card(), Ok(Card::new(7, Suit::Clubs)));
    assert_eq!(column.pick_card(), Err(GameError::TriedToPickEmptyColumn));
}

#[test]
fn column_stack_picks_up_to_the_longest_run() {
    // Bottom to top: a nine, then a black-red-black descending run of three.
    let column = Column::new(
        0,
        vec![(9, Suit::Hearts), (5, Suit::Spades), (4, Suit::Hearts), (3, Suit::Clubs)],
    );

    assert!(column.can_pick_stack(1).is_some());
    assert!(column.can_pick_stack(2).is_some());
    let three = column.can_pick_stack(3).expect("the run of three is liftable");
    assert_eq!(three.size, 3);
    assert_eq!(three.deepest_card, Card::new(5, Suit::Spades));
    assert!(column.can_pick_stack(4).is_none());
    assert!(column.can_pick_stack(0).is_none());

    let largest = column.get_largest_stack_pick().expect("non-empty column");
    assert_eq!(largest.size, 3);
    assert_eq!(largest.deepest_card, Card::new(5, Suit::Spades));
    assert_eq!(
        largest.location,
        CardLocation::Tableau(TableauCardLocation(
            TableauPosition(0),
            ColumnDepth { column_size: 4, depth: 2 },
        ))
    );

    assert!(Column::new(1, vec![]).get_largest_stack_pick().is_none());
}

#[test]
fn column_stack_transfer_moves_the_run() {
    let mut source = Column::new(
        0,
        vec![(9, Suit::Hearts), (5, Suit::Spades), (4, Suit::Hearts), (3, Suit::Clubs)],
    );
    let mut target = Column::new(1, vec![(6, Suit::Hearts)]);

    let pick = source.get_largest_stack_pick().expect("run of three");
    assert!(target.can_put_stack(&pick).is_some());

    target.take_stack_from(&mut source, pick).expect("transfer succeeds");
    assert_eq!(source.cards, vec![Card::new(9, Suit::Hearts)]);
    assert_eq!(
        target.cards,
        vec![
            Card::new(6, Suit::Hearts),
            Card::new(5, Suit::Spades),
            Card::new(4, Suit::Hearts),
            Card::new(3, Suit::Clubs),
        ]
    );
}

#[test]
fn column_stack_pick_with_too_few_cards_fails() {
    let mut column = Column::new(0, vec![(4, Suit::Hearts), (3, Suit::Clubs)]);
    let oversized = PickableStack::new(
        &Card::new(4, Suit::Hearts),
        CardLocation::Tableau(TableauCardLocation(
            TableauPosition(0),
            ColumnDepth { column_size: 2, depth: 2 },
        )),
        3,
    );
    assert_eq!(
        column.pick_stack(oversized),
        Err(GameError::InsufficientCardsForStackPick { stack_size: 3 })
    );
}

#[test]
fn foundation_placement_rule() {
    let empty = FoundationStack::new(0);
    assert!(empty.try_get_card_move(&pick_of(Card::new(1, Suit::Clubs))).is_some());

    let mut stack = FoundationStack::new(0);
    let mut ace_holder = ReserveSlot(ReservePosition(0), Some(Card::new(1, Suit::Clubs)));
    stack.take_card_from(&mut ace_holder).expect("ace placed");

    assert!(stack.try_get_card_move(&pick_of(Card::new(2, Suit::Clubs))).is_some());
    assert!(stack.try_get_card_move(&pick_of(Card::new(2, Suit::Spades))).is_none());
    assert!(stack.try_get_card_move(&pick_of(Card::new(3, Suit::Clubs))).is_none());
}

#[test]
fn foundation_pick_errors_and_depths() {
    let mut stack = FoundationStack::new(2);
    assert_eq!(stack.pick_card(), Err(GameError::TriedToPickEmptyFoundationStack));

    let mut holder = ReserveSlot(ReservePosition(0), Some(Card::new(1, Suit::Hearts)));
    stack.take_card_from(&mut holder).expect("ace placed");
    assert_eq!(stack.len(), 1);
    assert_eq!(stack.get_top_card(), Some(Card::new(1, Suit::Hearts)));

    let descriptor = ProximateCard { color: Color::Red, rank: Rank(1) };
    let depth = stack.find_card(&descriptor).expect("the ace matches");
    assert_eq!(depth, FoundationDepth { foundation_size: 1, depth: 0 });
    assert_eq!(depth.depth_index(), 1);

    let none = stack.find_card(&ProximateCard { color: Color::Black, rank: Rank(1) });
    assert!(none.is_none());
}

#[test]
fn reserve_slot_accepts_only_while_empty() {
    let empty = ReserveSlot::new(0);
    assert!(empty.try_get_card_move(&pick_of(Card::new(9, Suit::Diamonds))).is_some());

    let occupied = ReserveSlot(ReservePosition(0), Some(Card::new(4, Suit::Clubs)));
    assert!(occupied.try_get_card_move(&pick_of(Card::new(9, Suit::Diamonds))).is_none());
}

#[test]
fn reserve_transfer_and_errors() {
    let mut slot = ReserveSlot::new(0);
    assert_eq!(slot.pick_card(), Err(GameError::TriedToPickEmptyReserveSlot));

    let mut source = Column::new(0, vec![(8, Suit::Spades)]);
    slot.take_card_from(&mut source).expect("slot was empty");
    assert_eq!(slot.1, Some(Card::new(8, Suit::Spades)));
    assert!(source.cards.is_empty());

    let mut other = Column::new(1, vec![(9, Suit::Hearts)]);
    assert_eq!(slot.take_card_from(&mut other), Err(GameError::ReserveSlotIsOccupied));
    assert_eq!(other.cards, vec![Card::new(9, Suit::Hearts)]);
}

#[test]
fn reserve_picks_and_show_cards() {
    let mut reserve = Reserve::new();
    assert!(reserve.get_valid_card_picks().is_empty());

    let mut source = Column::new(0, vec![(8, Suit::Spades)]);
    reserve.0[2].take_card_from(&mut source).expect("slot two was empty");

    let picks = reserve.get_valid_card_picks();
    assert_eq!(picks.len(), 1);
    assert_eq!(picks[0].0, Card::new(8, Suit::Spades));
    assert_eq!(
        picks[0].1,
        CardLocation::Reserve(ReserveCardLocation(ReservePosition(2)))
    );

    let shown = reserve.show_cards(&vec![
        ReserveCardLocation(ReservePosition(2)),
        ReserveCardLocation(ReservePosition(3)),
    ]);
    assert_eq!(
        shown.0,
        vec![
            ShownCard::Blank,
            ShownCard::Blank,
            ShownCard::Revealed(Card::new(8, Suit::Spades)),
            ShownCard::Hidden,
        ]
    );
}

#[test]
fn state_tokens_advance_one_by_one() {
    let token = StateToken::new();
    assert_eq!(token, StateToken(0));
    assert_eq!(token.into_next(), StateToken(1));
}

#[test]
fn child_locations_cover_the_cards_above() {
    let location = TableauCardLocation(
        TableauPosition(3),
        ColumnDepth { column_size: 5, depth: 2 },
    );
    let children = location.get_child_locations();
    assert_eq!(children.len(), 2);
    assert_eq!(
        children[0],
        TableauCardLocation(TableauPosition(3), ColumnDepth { column_size: 5, depth: 0 })
    );
    assert_eq!(
        children[1],
        TableauCardLocation(TableauPosition(3), ColumnDepth { column_size: 5, depth: 1 })
    );
    assert_eq!(location.position(), TableauPosition(3));

    // Depth two in a column of five sits at height two above the base.
    assert!(location.matches_from_base(3, 2));
    assert!(!location.matches_from_base(3, 4));
    assert!(!location.matches_from_base(2, 2));
}

#[test]
fn foundation_equivalent_pair_reports_every_match() {
    let mut stack = FoundationStack::new(1);
    let mut holder = ReserveSlot(ReservePosition(0), Some(Card::new(1, Suit::Spades)));
    stack.take_card_from(&mut holder).expect("ace placed");

    let black_ace = ProximateCard { color: Color::Black, rank: Rank(1) };
    match stack.find_equivalent_pair(&black_ace) {
        Ternary::One(depth) => {
            assert_eq!(depth, FoundationDepth { foundation_size: 1, depth: 0 });
        },
        other => panic!("expected one hit, found {other:?}"),
    }

    let red_ace = ProximateCard { color: Color::Red, rank: Rank(1) };
    assert!(matches!(stack.find_equivalent_pair(&red_ace), Ternary::Zero));
}
