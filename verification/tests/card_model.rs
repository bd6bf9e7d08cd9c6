use freecell_engine::card::{Card, Color, ProximateCard, Rank, Suit, KING};
use freecell_engine::ternary::{IntoIter, Ternary};
use freecell_engine::thruple_partition_map::{thruple_partition_map, TernaryVal};

#[test]
fn suit_colours_and_opposition() {
    assert_eq!(Suit::Spades.get_colour(), Color::Black);
    assert_eq!(Suit::Clubs.get_colour(), Color::Black);
    assert_eq!(Suit::Hearts.get_colour(), Color::Red);
    assert_eq!(Suit::Diamonds.get_colour(), Color::Red);

    assert_eq!(Color::Red.get_opposing_color(), Color::Black);
    assert_eq!(Color::Black.get_opposing_color(), Color::Red);

    assert!(Suit::Hearts.is_opposing_color(&Suit::Spades));
    assert!(!Suit::Hearts.is_opposing_color(&Suit::Diamonds));

    assert_eq!(Suit::Hearts.get_opposing_suits(), (Suit::Spades, Suit::Clubs));
    assert_eq!(Suit::Clubs.get_opposing_suits(), (Suit::Hearts, Suit::Diamonds));
}

#[test]
fn card_accessors_and_pair_tests() {
    let five_h = Card::new(5, Suit::Hearts);
    let six_s = Card::new(6, Suit::Spades);
    let six_h = Card::new(6, Suit::Hearts);

    assert_eq!(five_h.get_value(), Rank(5));
    assert_eq!(five_h.get_color(), Color::Red);

    assert!(five_h.is_same_pack(&six_h));
    assert!(!five_h.is_same_pack(&six_s));

    assert!(five_h.is_complementary_pack(&six_s));
    assert!(!five_h.is_complementary_pack(&six_h));

    assert!(five_h.is_playable_pair_smaller(&six_s));
    assert!(!six_s.is_playable_pair_smaller(&five_h));
    assert!(six_s.is_playable_pair_bigger(&five_h));
    assert!(!five_h.is_playable_pair_bigger(&six_s));
}

#[test]
fn proximate_card_matching() {
    let descriptor = ProximateCard { color: Color::Black, rank: Rank(6) };
    assert!(descriptor.matches(&Card::new(6, Suit::Spades)));
    assert!(descriptor.matches(&Card::new(6, Suit::Clubs)));
    assert!(!descriptor.matches(&Card::new(6, Suit::Hearts)));
    assert!(!descriptor.matches(&Card::new(7, Suit::Spades)));

    assert!(Card::new(6, Suit::Clubs).matches_prox_card(&descriptor));
}

#[test]
fn parent_data_of_ordinary_card_and_king() {
    let five_h = Card::new(5, Suit::Hearts);
    let parent = five_h.get_parent_data().expect("a five has parents");
    assert_eq!(parent, ProximateCard { color: Color::Black, rank: Rank(6) });

    assert!(Card::new(KING, Suit::Clubs).get_parent_data().is_none());

    let parents = five_h.get_parents().expect("a five has parents");
    assert_eq!(parents, (Card::new(6, Suit::Spades), Card::new(6, Suit::Clubs)));
    assert!(Card::new(KING, Suit::Diamonds).get_parents().is_none());
}

#[test]
fn ternary_and_caps_at_two_hits() {
    let one: Ternary<u8> = Ternary::One(1);
    let two: Ternary<u8> = Ternary::Two(2, 3);
    let zero: Ternary<u8> = Ternary::Zero;

    assert_eq!(zero.and(Ternary::One(9)), Ternary::One(9));
    assert_eq!(one.and(Ternary::One(9)), Ternary::Two(1, 9));
    assert_eq!(one.and(two), Ternary::Two(1, 2));
    assert_eq!(two.and(Ternary::One(9)), Ternary::Two(2, 3));
    assert_eq!(two.and(Ternary::Zero), Ternary::Two(2, 3));
}

#[test]
fn ternary_and_then_only_merges_saturated_results() {
    let one: Ternary<u8> = Ternary::One(1);
    let two: Ternary<u8> = Ternary::Two(2, 3);

    assert_eq!(one.and_then(Ternary::Two(7, 8)), Ternary::One(1));
    assert_eq!(two.and_then(Ternary::One(9)), Ternary::Two(2, 3));
    assert_eq!(Ternary::<u8>::Zero.and_then(Ternary::One(9)), Ternary::Zero);
}

#[test]
fn ternary_iteration_yields_hits_in_order() {
    let mut it: IntoIter<u8> = Ternary::Two(4, 5).into_iter();
    assert_eq!(it.next(), Some(4));
    assert_eq!(it.next(), Some(5));
    assert_eq!(it.next(), None);

    let mut one = Ternary::One(7u8).into_iter();
    assert_eq!(one.next(), Some(7));
    assert_eq!(one.next(), None);

    let mut zero = Ternary::<u8>::Zero.into_iter();
    assert_eq!(zero.next(), None);
}

#[test]
fn thruple_partition_keeps_order_per_side() {
    let items: Vec<TernaryVal<u8, char, &str>> = vec![
        TernaryVal::Left(1),
        TernaryVal::Right("a"),
        TernaryVal::Middle('x'),
        TernaryVal::Left(2),
        TernaryVal::Right("b"),
    ];
    let (lefts, middles, rights) = thruple_partition_map(items);
    assert_eq!(lefts, vec![1, 2]);
    assert_eq!(middles, vec!['x']);
    assert_eq!(rights, vec!["a", "b"]);
}
