use freecell_engine::card::{Card, ShownCard, Suit, KING};
use freecell_engine::error::GameError;
use freecell_engine::foundation::{FoundationCardLocation, FoundationDepth, FoundationPosition};
use freecell_engine::game::{CardLocation, Game, ParentLocations};
use freecell_engine::pickables::CardMove;
use freecell_engine::reserve::{ReserveCardLocation, ReservePosition};
use freecell_engine::tableau::{ColumnDepth, TableauCardLocation, TableauPosition};

/// A full deal: eight columns, fifty-two distinct cards, the last pair of
/// each column being that column's exposed top card.
fn deal() -> Vec<Vec<(usize, Suit)>> {
    let (h, c, d, s) = (Suit::Hearts, Suit::Clubs, Suit::Diamonds, Suit::Spades);
    vec![
        vec![(2, h), (10, c), (12, d), (11, c), (6, c), (3, h), (3, d)],
        vec![(6, s), (4, c), (3, c), (7, s), (9, d), (8, h), (1, h)],
        vec![(1, c), (9, s), (12, h), (13, h), (2, d), (2, s), (4, h)],
        vec![(6, d), (5, s), (10, d), (12, c), (7, d), (5, h), (10, h)],
        vec![(6, h), (13, s), (7, h), (7, c), (5, d), (11, s)],
        vec![(10, s), (1, s), (3, s), (13, d), (11, d), (11, h)],
        vec![(5, c), (13, c), (9, c), (4, d), (12, s), (8, d)],
        vec![(4, s), (8, c), (8, s), (2, c), (1, d), (9, h)],
    ]
}

fn tableau_loc(pos: usize, column_size: usize, depth: usize) -> CardLocation {
    CardLocation::Tableau(TableauCardLocation(
        TableauPosition(pos),
        ColumnDepth { column_size, depth },
    ))
}

fn reserve_loc(pos: usize) -> CardLocation {
    CardLocation::Reserve(ReserveCardLocation(ReservePosition(pos)))
}

fn foundation_loc(pos: usize, foundation_size: usize, depth: usize) -> CardLocation {
    CardLocation::Foundation(FoundationCardLocation(
        FoundationPosition(pos),
        FoundationDepth { foundation_size, depth },
    ))
}

fn card_move(card: Card, from: CardLocation, to: CardLocation) -> CardMove {
    CardMove { card, from, to }
}

#[test]
fn new_game_exposes_the_dealt_tops() {
    let game = Game::new(deal());
    let picks = game.get_valid_card_picks();
    assert_eq!(picks.len(), 8);
    assert_eq!(picks[0].0, Card::new(3, Suit::Diamonds));
    assert_eq!(picks[0].1, tableau_loc(0, 7, 0));
    assert_eq!(picks[7].0, Card::new(9, Suit::Hearts));
}

#[test]
fn find_parents_reports_two_matching_locations() {
    let game = Game::new(deal());
    // The three of diamonds wants a black four: the four of clubs sits in
    // column one under five cards, the four of spades in column seven
    // under five cards.
    match game.find_parents(&Card::new(3, Suit::Diamonds)) {
        ParentLocations::HasParents(l1, l2) => {
            assert_eq!(l1, tableau_loc(1, 7, 5));
            assert_eq!(l2, tableau_loc(7, 6, 5));
            assert_eq!(
                game.tableau.0[1].at_depth(ColumnDepth { column_size: 7, depth: 5 }),
                Card::new(4, Suit::Clubs)
            );
            assert_eq!(
                game.tableau.0[7].at_depth(ColumnDepth { column_size: 6, depth: 5 }),
                Card::new(4, Suit::Spades)
            );
        },
        ParentLocations::King => panic!("a three is no king"),
    }
}

#[test]
fn find_parents_of_king_is_terminal() {
    let game = Game::new(deal());
    let r = game.find_parents(&Card::new(KING, Suit::Hearts));
    assert_eq!(r, ParentLocations::King);
    assert_eq!(r.min_distance(), None);
}

#[test]
fn min_distance_takes_the_cheaper_parent() {
    let parents = ParentLocations::HasParents(tableau_loc(1, 7, 5), tableau_loc(7, 6, 2));
    assert_eq!(parents.min_distance(), Some(2));
}

#[test]
fn parents_of_all_top_cards_are_ranked() {
    let game = Game::new(deal());
    let hints = game.find_parents_for_top_cards();
    assert_eq!(hints.len(), 8);
    assert_eq!(hints[0].0, Card::new(3, Suit::Diamonds));
    assert!(matches!(hints[0].1, ParentLocations::HasParents(_, _)));
}

#[test]
fn an_ace_can_move_to_an_empty_foundation() {
    let mut game = Game::new(deal());
    let ace = Card::new(1, Suit::Hearts);
    let r = game.move_card(card_move(ace, tableau_loc(1, 7, 0), foundation_loc(0, 0, 0)));
    assert_eq!(r, Ok(()));
    assert_eq!(game.foundation.0[0].get_top_card(), Some(ace));
    assert_eq!(game.tableau.0[1].len(), 6);
}

#[test]
fn moving_onto_a_same_colour_top_is_refused() {
    // A two of hearts cannot sit on a red three, but moves to an empty
    // column or onto a black three.
    let (h, s) = (Suit::Hearts, Suit::Spades);
    let mut game = Game::new(vec![
        vec![(2, h)],
        vec![],
        vec![(3, h)],
        vec![(3, s)],
        vec![],
        vec![],
        vec![],
        vec![],
    ]);
    let two_h = Card::new(2, h);

    let refused = game.move_card(card_move(two_h, tableau_loc(0, 1, 0), tableau_loc(2, 1, 0)));
    assert_eq!(refused, Err(GameError::IllegalCardPlacement));
    assert_eq!(game.tableau.0[0].len(), 1);

    let onto_empty = game.move_card(card_move(two_h, tableau_loc(0, 1, 0), tableau_loc(1, 0, 0)));
    assert_eq!(onto_empty, Ok(()));
    assert_eq!(game.tableau.0[1].first_card(), Some(two_h));

    let back = game.move_card(card_move(two_h, tableau_loc(1, 1, 0), tableau_loc(0, 0, 0)));
    assert_eq!(back, Ok(()));

    let onto_black_three = game.move_card(
        card_move(two_h, tableau_loc(0, 1, 0), tableau_loc(3, 1, 0)),
    );
    assert_eq!(onto_black_three, Ok(()));
    assert_eq!(game.tableau.0[3].first_card(), Some(two_h));
}

#[test]
fn foundation_builds_ace_up_in_one_suit() {
    let (h, c, s) = (Suit::Hearts, Suit::Clubs, Suit::Spades);
    let mut game = Game::new(vec![
        vec![(1, c)],
        vec![(2, c)],
        vec![(2, s)],
        vec![],
        vec![],
        vec![],
        vec![],
        vec![(3, h)],
    ]);

    let ace = game.move_card(card_move(
        Card::new(1, c),
        tableau_loc(0, 1, 0),
        foundation_loc(1, 0, 0),
    ));
    assert_eq!(ace, Ok(()));

    let two_clubs = game.move_card(card_move(
        Card::new(2, c),
        tableau_loc(1, 1, 0),
        foundation_loc(1, 1, 0),
    ));
    assert_eq!(two_clubs, Ok(()));

    let wrong_suit = game.move_card(card_move(
        Card::new(2, s),
        tableau_loc(2, 1, 0),
        foundation_loc(1, 2, 0),
    ));
    assert_eq!(wrong_suit, Err(GameError::IllegalCardPlacement));

    assert_eq!(game.foundation.0[1].len(), 2);
    assert_eq!(game.foundation.0[1].get_top_card(), Some(Card::new(2, c)));
}

#[test]
fn move_errors_name_the_failing_check() {
    let mut game = Game::new(deal());
    let some_card = Card::new(9, Suit::Hearts);

    let bad_source = game.move_card(card_move(some_card, tableau_loc(9, 1, 0), reserve_loc(0)));
    assert_eq!(bad_source, Err(GameError::NoSuchColumn(9)));

    let bad_target = game.move_card(card_move(some_card, tableau_loc(7, 6, 0), reserve_loc(6)));
    assert_eq!(bad_target, Err(GameError::NoSuchReserveSlot(6)));

    let empty_source = game.move_card(card_move(some_card, reserve_loc(1), tableau_loc(0, 7, 0)));
    assert_eq!(empty_source, Err(GameError::TriedToPickEmptyReserveSlot));

    let bad_stack = game.move_card(card_move(some_card, foundation_loc(5, 0, 0), reserve_loc(0)));
    assert_eq!(bad_stack, Err(GameError::NoSuchFoundationStack(5)));

    game.move_card(card_move(some_card, tableau_loc(7, 6, 0), reserve_loc(0)))
        .expect("the slot was free");
    let occupied = game.move_card(card_move(
        Card::new(8, Suit::Diamonds),
        tableau_loc(6, 6, 0),
        reserve_loc(0),
    ));
    assert_eq!(occupied, Err(GameError::ReserveSlotIsOccupied));
}

#[test]
fn a_legal_move_there_and_back_restores_the_board() {
    let mut game = Game::new(deal());
    let ten_h = Card::new(10, Suit::Hearts);

    // Put the ten of hearts onto the black jack, making a playable pair.
    game.move_card(card_move(ten_h, tableau_loc(3, 7, 0), tableau_loc(4, 6, 0)))
        .expect("ten onto black jack");

    let column_four_before = game.tableau.0[4].cards.clone();

    game.move_card(card_move(ten_h, tableau_loc(4, 7, 0), reserve_loc(0)))
        .expect("reserve slot was free");
    assert_eq!(game.reserve.0[0].1, Some(ten_h));

    game.move_card(card_move(ten_h, reserve_loc(0), tableau_loc(4, 6, 0)))
        .expect("back onto the black jack");

    assert_eq!(game.tableau.0[4].cards, column_four_before);
    assert_eq!(game.reserve.0[0].1, None);
}

#[test]
fn legal_moves_conserve_the_fifty_two_cards() {
    let mut game = Game::new(deal());
    game.move_card(card_move(
        Card::new(1, Suit::Hearts),
        tableau_loc(1, 7, 0),
        foundation_loc(0, 0, 0),
    ))
    .expect("ace to foundation");
    game.move_card(card_move(
        Card::new(10, Suit::Hearts),
        tableau_loc(3, 7, 0),
        tableau_loc(4, 6, 0),
    ))
    .expect("ten onto black jack");
    game.move_card(card_move(Card::new(9, Suit::Hearts), tableau_loc(7, 6, 0), reserve_loc(2)))
        .expect("nine to reserve");

    let mut seen = [[0u8; 4]; 14];
    let suit_index = |s: Suit| match s {
        Suit::Spades => 0,
        Suit::Clubs => 1,
        Suit::Hearts => 2,
        Suit::Diamonds => 3,
    };
    let mut total = 0;
    for column in &game.tableau.0 {
        for card in &column.cards {
            seen[card.0.0][suit_index(card.1)] += 1;
            total += 1;
        }
    }
    for slot in &game.reserve.0 {
        if let Some(card) = &slot.1 {
            seen[card.0.0][suit_index(card.1)] += 1;
            total += 1;
        }
    }
    for stack in &game.foundation.0 {
        for card in &stack.1 {
            seen[card.0.0][suit_index(card.1)] += 1;
            total += 1;
        }
    }
    assert_eq!(total, 52);
    for rank in 1..=13 {
        for suit in 0..4 {
            assert_eq!(seen[rank][suit], 1, "rank {rank} suit {suit}");
        }
    }
}

#[test]
fn puts_for_an_ace_cover_reserve_and_foundation() {
    let game = Game::new(deal());
    let pick = freecell_engine::pickables::PickableCard::new(
        &Card::new(1, Suit::Hearts),
        tableau_loc(1, 7, 0),
    );
    let puts = game.get_valid_card_puts(&pick);
    // Four empty reserve slots and four empty foundation stacks accept the
    // ace; no tableau top is a black two.
    assert_eq!(puts.len(), 8);
    assert_eq!(puts[0].to, reserve_loc(0));
    assert_eq!(puts[4].to, foundation_loc(0, 0, 0));
    assert!(puts.iter().all(|m| m.card == Card::new(1, Suit::Hearts)));
}

#[test]
fn stack_picks_report_the_longest_runs() {
    let (h, s, c, d) = (Suit::Hearts, Suit::Spades, Suit::Clubs, Suit::Diamonds);
    let game = Game::new(vec![
        vec![(9, h), (5, s), (4, h), (3, c)],
        vec![(7, d)],
        vec![],
        vec![],
        vec![],
        vec![],
        vec![],
        vec![],
    ]);
    let picks = game.get_valid_stack_picks();
    assert_eq!(picks.len(), 2);
    assert_eq!(picks[0].size, 3);
    assert_eq!(picks[0].deepest_card, Card::new(5, s));
    assert_eq!(picks[0].location, tableau_loc(0, 4, 2));
    assert_eq!(picks[1].size, 1);
    assert_eq!(picks[1].deepest_card, Card::new(7, d));
}

#[test]
fn show_cards_classifies_every_cell() {
    let mut game = Game::new(deal());
    game.move_card(card_move(Card::new(9, Suit::Hearts), tableau_loc(7, 6, 0), reserve_loc(2)))
        .expect("nine to reserve");
    game.move_card(card_move(
        Card::new(1, Suit::Hearts),
        tableau_loc(1, 7, 0),
        foundation_loc(0, 0, 0),
    ))
    .expect("ace to foundation");

    let shown = game.show_cards(&vec![
        reserve_loc(2),
        foundation_loc(0, 1, 0),
        tableau_loc(0, 7, 0),
    ]);

    assert_eq!(shown.reserve.0[2], ShownCard::Revealed(Card::new(9, Suit::Hearts)));
    assert_eq!(shown.reserve.0[0], ShownCard::Blank);
    assert_eq!(shown.foundation.0[0], ShownCard::Revealed(Card::new(1, Suit::Hearts)));
    assert_eq!(shown.foundation.0[1], ShownCard::Blank);

    // Seven rows: column zero still holds seven cards.
    assert_eq!(shown.tableau.0.len(), 7);
    // The revealed top of column zero sits in the highest row.
    assert_eq!(shown.tableau.0[6][0], ShownCard::Revealed(Card::new(3, Suit::Diamonds)));
    // A present but unlisted card shows its back; a missing cell is blank.
    assert_eq!(shown.tableau.0[0][0], ShownCard::Hidden);
    assert_eq!(shown.tableau.0[6][7], ShownCard::Blank);
}

#[test]
fn self_moves_are_rejected_without_mutation() {
    let mut game = Game::new(deal());

    // A column onto itself: its own top is never a playable pair with
    // itself.
    let column_self = game.move_card(card_move(
        Card::new(3, Suit::Diamonds),
        tableau_loc(0, 7, 0),
        tableau_loc(0, 7, 0),
    ));
    assert_eq!(column_self, Err(GameError::IllegalCardPlacement));
    assert_eq!(game.tableau.0[0].len(), 7);

    // An empty reserve slot onto itself fails the pick.
    let empty_slot_self = game.move_card(card_move(
        Card::new(3, Suit::Diamonds),
        reserve_loc(0),
        reserve_loc(0),
    ));
    assert_eq!(empty_slot_self, Err(GameError::TriedToPickEmptyReserveSlot));

    // An occupied reserve slot onto itself fails the occupancy check.
    game.move_card(card_move(Card::new(9, Suit::Hearts), tableau_loc(7, 6, 0), reserve_loc(0)))
        .expect("the slot was free");
    let occupied_slot_self = game.move_card(card_move(
        Card::new(9, Suit::Hearts),
        reserve_loc(0),
        reserve_loc(0),
    ));
    assert_eq!(occupied_slot_self, Err(GameError::ReserveSlotIsOccupied));
    assert_eq!(game.reserve.0[0].1, Some(Card::new(9, Suit::Hearts)));

    // A foundation pile onto itself: a card is never one rank above
    // itself.
    game.move_card(card_move(
        Card::new(1, Suit::Hearts),
        tableau_loc(1, 7, 0),
        foundation_loc(0, 0, 0),
    ))
    .expect("ace to foundation");
    let pile_self = game.move_card(card_move(
        Card::new(1, Suit::Hearts),
        foundation_loc(0, 1, 0),
        foundation_loc(0, 1, 0),
    ));
    assert_eq!(pile_self, Err(GameError::IllegalCardPlacement));
    assert_eq!(game.foundation.0[0].len(), 1);
}

#[test]
fn location_distances_follow_the_depths() {
    assert_eq!(tableau_loc(2, 7, 3).get_distance(), 3);
    assert_eq!(foundation_loc(1, 4, 2).get_distance(), 2);
    assert_eq!(reserve_loc(3).get_distance(), 0);
}
