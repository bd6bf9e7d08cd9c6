//! Counting specifications over card sequences and depot collections, and
//! the lemmas that tie them together. The game's conservation invariant —
//! every well-formed card present exactly once — is stated with these
//! counts, and the parent search's "exactly two matches" guarantee is
//! derived from them.

use vstd::prelude::*;

use crate::card::{descriptor_cards, lemma_descriptor_cards, Card, ProximateCard, Rank, Suit};

verus! {

/// How often one concrete card occurs in a sequence.
pub open spec fn count_eq(s: Seq<Card>, c: Card) -> nat
    decreases s.len(),
{
    if s.len() == 0 {
        0
    } else {
        (if s[0] == c {
            1nat
        } else {
            0nat
        }) + count_eq(s.skip(1), c)
    }
}

/// How many cards of a sequence match a descriptor.
pub open spec fn count_matches(s: Seq<Card>, prox: ProximateCard) -> nat
    decreases s.len(),
{
    if s.len() == 0 {
        0
    } else {
        (if s[0].matches_spec(prox) {
            1nat
        } else {
            0nat
        }) + count_matches(s.skip(1), prox)
    }
}

/// Every card of the sequence is well formed.
pub open spec fn all_wf(s: Seq<Card>) -> bool {
    forall|i: int| 0 <= i < s.len() ==> s[i].wf()
}

/// Every card of every inner sequence is well formed.
pub open spec fn all_wf_cols(cols: Seq<Seq<Card>>) -> bool {
    forall|i: int| 0 <= i < cols.len() ==> all_wf(#[trigger] cols[i])
}

/// Every held card of a row of single-card slots is well formed.
pub open spec fn all_wf_slots(slots: Seq<Option<Card>>) -> bool {
    forall|i: int|
        0 <= i < slots.len() ==> match #[trigger] slots[i] {
            Some(c) => c.wf(),
            None => true,
        }
}

/// All cards of a row of piles, pile by pile, bottom to top.
pub open spec fn concat_cols(cols: Seq<Seq<Card>>) -> Seq<Card>
    decreases cols.len(),
{
    if cols.len() == 0 {
        Seq::empty()
    } else {
        cols[0] + concat_cols(cols.skip(1))
    }
}

/// All cards held by a row of single-card slots, in slot order.
pub open spec fn concat_slots(slots: Seq<Option<Card>>) -> Seq<Card>
    decreases slots.len(),
{
    if slots.len() == 0 {
        Seq::empty()
    } else {
        (match slots[0] {
            Some(c) => seq![c],
            None => Seq::empty(),
        }) + concat_slots(slots.skip(1))
    }
}

pub proof fn lemma_count_eq_push(s: Seq<Card>, x: Card, c: Card)
    ensures
        count_eq(s.push(x), c) == count_eq(s, c) + (if x == c {
            1nat
        } else {
            0nat
        }),
    decreases s.len(),
{
    if s.len() == 0 {
        assert(s.push(x).skip(1) =~= Seq::<Card>::empty());
        assert(s.push(x)[0] == x);
        assert(count_eq(Seq::<Card>::empty(), c) == 0);
        assert(count_eq(s.push(x), c) == (if x == c {
            1nat
        } else {
            0nat
        }) + count_eq(s.push(x).skip(1), c));
    } else {
        assert(s.push(x).skip(1) =~= s.skip(1).push(x));
        assert(s.push(x)[0] == s[0]);
        assert(count_eq(s.push(x), c) == (if s[0] == c {
            1nat
        } else {
            0nat
        }) + count_eq(s.push(x).skip(1), c));
        lemma_count_eq_push(s.skip(1), x, c);
    }
}

pub proof fn lemma_count_matches_push(s: Seq<Card>, x: Card, prox: ProximateCard)
    ensures
        count_matches(s.push(x), prox) == count_matches(s, prox) + (if x.matches_spec(prox) {
            1nat
        } else {
            0nat
        }),
    decreases s.len(),
{
    if s.len() == 0 {
        assert(s.push(x).skip(1) =~= Seq::<Card>::empty());
        assert(s.push(x)[0] == x);
        assert(count_matches(Seq::<Card>::empty(), prox) == 0);
        assert(count_matches(s.push(x), prox) == (if x.matches_spec(prox) {
            1nat
        } else {
            0nat
        }) + count_matches(s.push(x).skip(1), prox));
    } else {
        assert(s.push(x).skip(1) =~= s.skip(1).push(x));
        assert(s.push(x)[0] == s[0]);
        assert(count_matches(s.push(x), prox) == (if s[0].matches_spec(prox) {
            1nat
        } else {
            0nat
        }) + count_matches(s.push(x).skip(1), prox));
        lemma_count_matches_push(s.skip(1), x, prox);
    }
}

pub proof fn lemma_count_eq_concat(a: Seq<Card>, b: Seq<Card>, c: Card)
    ensures
        count_eq(a + b, c) == count_eq(a, c) + count_eq(b, c),
    decreases a.len(),
{
    if a.len() == 0 {
        assert(a + b =~= b);
    } else {
        assert((a + b).skip(1) =~= a.skip(1) + b);
        lemma_count_eq_concat(a.skip(1), b, c);
    }
}

pub proof fn lemma_count_matches_concat(a: Seq<Card>, b: Seq<Card>, prox: ProximateCard)
    ensures
        count_matches(a + b, prox) == count_matches(a, prox) + count_matches(b, prox),
    decreases a.len(),
{
    if a.len() == 0 {
        assert(a + b =~= b);
    } else {
        assert((a + b).skip(1) =~= a.skip(1) + b);
        lemma_count_matches_concat(a.skip(1), b, prox);
    }
}

pub proof fn lemma_count_eq_drop_last(s: Seq<Card>, c: Card)
    requires
        s.len() > 0,
    ensures
        count_eq(s, c) == count_eq(s.drop_last(), c) + (if s.last() == c {
            1nat
        } else {
            0nat
        }),
{
    assert(s =~= s.drop_last().push(s.last()));
    lemma_count_eq_push(s.drop_last(), s.last(), c);
}

/// Stepping a top-down scan: the count over the suffix from position `i`
/// splits into the card at `i` and the count over the rest.
pub proof fn lemma_count_matches_skip_step(s: Seq<Card>, i: int, prox: ProximateCard)
    requires
        0 <= i < s.len(),
    ensures
        count_matches(s.skip(i), prox) == (if s[i].matches_spec(prox) {
            1nat
        } else {
            0nat
        }) + count_matches(s.skip(i + 1), prox),
{
    assert(s.skip(i)[0] == s[i]);
    assert(s.skip(i).skip(1) =~= s.skip(i + 1));
}

/// On a well-formed sequence, the matches of a descriptor are exactly the
/// occurrences of the descriptor's two concrete cards.
pub proof fn lemma_count_matches_split(s: Seq<Card>, prox: ProximateCard)
    requires
        all_wf(s),
    ensures
        count_matches(s, prox) == count_eq(s, descriptor_cards(prox).0) + count_eq(
            s,
            descriptor_cards(prox).1,
        ),
    decreases s.len(),
{
    if s.len() > 0 {
        lemma_descriptor_cards(prox, s[0]);
        assert(all_wf(s.skip(1))) by {
            assert(forall|i: int| 0 <= i < s.skip(1).len() ==> s.skip(1)[i] == s[i + 1]);
        }
        lemma_count_matches_split(s.skip(1), prox);
    }
}

pub proof fn lemma_count_eq_concat_cols(cols: Seq<Seq<Card>>, c: Card)
    ensures
        count_eq(concat_cols(cols), c) == count_eq_cols(cols, c),
    decreases cols.len(),
{
    if cols.len() > 0 {
        lemma_count_eq_concat(cols[0], concat_cols(cols.skip(1)), c);
        lemma_count_eq_concat_cols(cols.skip(1), c);
    }
}

pub proof fn lemma_count_matches_concat_cols(cols: Seq<Seq<Card>>, prox: ProximateCard)
    ensures
        count_matches(concat_cols(cols), prox) == count_matches_cols(cols, prox),
    decreases cols.len(),
{
    if cols.len() > 0 {
        lemma_count_matches_concat(cols[0], concat_cols(cols.skip(1)), prox);
        lemma_count_matches_concat_cols(cols.skip(1), prox);
    }
}

pub proof fn lemma_count_eq_concat_slots(slots: Seq<Option<Card>>, c: Card)
    ensures
        count_eq(concat_slots(slots), c) == count_eq_slots(slots, c),
    decreases slots.len(),
{
    if slots.len() > 0 {
        let head: Seq<Card> = match slots[0] {
            Some(x) => seq![x],
            None => Seq::empty(),
        };
        match slots[0] {
            Some(x) => {
                assert(head[0] == x);
                assert(head.skip(1) =~= Seq::<Card>::empty());
                assert(count_eq(Seq::<Card>::empty(), c) == 0);
                assert(count_eq(head, c) == (if x == c {
                    1nat
                } else {
                    0nat
                }));
            },
            None => {
                assert(count_eq(head, c) == 0);
            },
        }
        lemma_count_eq_concat(head, concat_slots(slots.skip(1)), c);
        lemma_count_eq_concat_slots(slots.skip(1), c);
    }
}

pub proof fn lemma_count_matches_concat_slots(slots: Seq<Option<Card>>, prox: ProximateCard)
    ensures
        count_matches(concat_slots(slots), prox) == count_matches_slots(slots, prox),
    decreases slots.len(),
{
    if slots.len() > 0 {
        let head: Seq<Card> = match slots[0] {
            Some(x) => seq![x],
            None => Seq::empty(),
        };
        match slots[0] {
            Some(x) => {
                assert(head[0] == x);
                assert(head.skip(1) =~= Seq::<Card>::empty());
                assert(count_matches(Seq::<Card>::empty(), prox) == 0);
                assert(count_matches(head, prox) == (if x.matches_spec(prox) {
                    1nat
                } else {
                    0nat
                }));
            },
            None => {
                assert(count_matches(head, prox) == 0);
            },
        }
        lemma_count_matches_concat(head, concat_slots(slots.skip(1)), prox);
        lemma_count_matches_concat_slots(slots.skip(1), prox);
    }
}

/// Sum of one card's occurrences over a row of piles.
pub open spec fn count_eq_cols(cols: Seq<Seq<Card>>, c: Card) -> nat
    decreases cols.len(),
{
    if cols.len() == 0 {
        0
    } else {
        count_eq(cols[0], c) + count_eq_cols(cols.skip(1), c)
    }
}

/// Sum of a descriptor's matches over a row of piles.
pub open spec fn count_matches_cols(cols: Seq<Seq<Card>>, prox: ProximateCard) -> nat
    decreases cols.len(),
{
    if cols.len() == 0 {
        0
    } else {
        count_matches(cols[0], prox) + count_matches_cols(cols.skip(1), prox)
    }
}

/// Sum of one card's occurrences over a row of single-card slots.
pub open spec fn count_eq_slots(slots: Seq<Option<Card>>, c: Card) -> nat
    decreases slots.len(),
{
    if slots.len() == 0 {
        0
    } else {
        (match slots[0] {
            Some(x) => if x == c {
                1nat
            } else {
                0nat
            },
            None => 0nat,
        }) + count_eq_slots(slots.skip(1), c)
    }
}

/// Sum of a descriptor's matches over a row of single-card slots.
pub open spec fn count_matches_slots(slots: Seq<Option<Card>>, prox: ProximateCard) -> nat
    decreases slots.len(),
{
    if slots.len() == 0 {
        0
    } else {
        (match slots[0] {
            Some(x) => if x.matches_spec(prox) {
                1nat
            } else {
                0nat
            },
            None => 0nat,
        }) + count_matches_slots(slots.skip(1), prox)
    }
}

/// Stepping a left-to-right walk over a row of piles.
pub proof fn lemma_count_matches_cols_skip_step(cols: Seq<Seq<Card>>, i: int, prox: ProximateCard)
    requires
        0 <= i < cols.len(),
    ensures
        count_matches_cols(cols.skip(i), prox) == count_matches(cols[i], prox)
            + count_matches_cols(cols.skip(i + 1), prox),
{
    assert(cols.skip(i)[0] == cols[i]);
    assert(cols.skip(i).skip(1) =~= cols.skip(i + 1));
}

/// Stepping a left-to-right walk over a row of slots.
pub proof fn lemma_count_matches_slots_skip_step(
    slots: Seq<Option<Card>>,
    i: int,
    prox: ProximateCard,
)
    requires
        0 <= i < slots.len(),
    ensures
        count_matches_slots(slots.skip(i), prox) == (match slots[i] {
            Some(x) => if x.matches_spec(prox) {
                1nat
            } else {
                0nat
            },
            None => 0nat,
        }) + count_matches_slots(slots.skip(i + 1), prox),
{
    assert(slots.skip(i)[0] == slots[i]);
    assert(slots.skip(i).skip(1) =~= slots.skip(i + 1));
}

/// Replacing one pile of a row changes the row's count by the difference of
/// the pile counts.
pub proof fn lemma_count_eq_cols_update(cols: Seq<Seq<Card>>, i: int, v: Seq<Card>, c: Card)
    requires
        0 <= i < cols.len(),
    ensures
        count_eq_cols(cols.update(i, v), c) + count_eq(cols[i], c) == count_eq_cols(cols, c)
            + count_eq(v, c),
    decreases cols.len(),
{
    if i == 0 {
        assert(cols.update(0, v)[0] == v);
        assert(cols.update(0, v).skip(1) =~= cols.skip(1));
    } else {
        assert(cols.update(i, v)[0] == cols[0]);
        assert(cols.update(i, v).skip(1) =~= cols.skip(1).update(i - 1, v));
        assert(cols.skip(1)[i - 1] == cols[i]);
        lemma_count_eq_cols_update(cols.skip(1), i - 1, v, c);
    }
}

/// Replacing one slot of a row changes the row's count by the difference of
/// the slot contributions.
pub proof fn lemma_count_eq_slots_update(
    slots: Seq<Option<Card>>,
    i: int,
    v: Option<Card>,
    c: Card,
)
    requires
        0 <= i < slots.len(),
    ensures
        count_eq_slots(slots.update(i, v), c) + (match slots[i] {
            Some(x) => if x == c {
                1nat
            } else {
                0nat
            },
            None => 0nat,
        }) == count_eq_slots(slots, c) + (match v {
            Some(x) => if x == c {
                1nat
            } else {
                0nat
            },
            None => 0nat,
        }),
    decreases slots.len(),
{
    if i == 0 {
        assert(slots.update(0, v)[0] == v);
        assert(slots.update(0, v).skip(1) =~= slots.skip(1));
    } else {
        assert(slots.update(i, v)[0] == slots[0]);
        assert(slots.update(i, v).skip(1) =~= slots.skip(1).update(i - 1, v));
        assert(slots.skip(1)[i - 1] == slots[i]);
        lemma_count_eq_slots_update(slots.skip(1), i - 1, v, c);
    }
}

/// The occurrence counts of all fifty-two well-formed cards, summed for the
/// ranks from one up to `r`.
pub open spec fn deck_rank_sum(s: Seq<Card>, r: int) -> nat
    decreases r,
{
    if r <= 0 {
        0
    } else {
        count_eq(s, Card(Rank(r as usize), Suit::Spades)) + count_eq(
            s,
            Card(Rank(r as usize), Suit::Clubs),
        ) + count_eq(s, Card(Rank(r as usize), Suit::Hearts)) + count_eq(
            s,
            Card(Rank(r as usize), Suit::Diamonds),
        ) + deck_rank_sum(s, r - 1)
    }
}

proof fn lemma_deck_rank_sum_step(s: Seq<Card>, r: int)
    requires
        s.len() > 0,
        0 <= r <= 13,
    ensures
        deck_rank_sum(s, r) == deck_rank_sum(s.skip(1), r) + (if 1 <= s[0].0.0 <= r {
            1nat
        } else {
            0nat
        }),
    decreases r,
{
    if r > 0 {
        assert(count_eq(s, Card(Rank(r as usize), Suit::Spades)) == (if s[0] == Card(
            Rank(r as usize),
            Suit::Spades,
        ) {
            1nat
        } else {
            0nat
        }) + count_eq(s.skip(1), Card(Rank(r as usize), Suit::Spades)));
        assert(count_eq(s, Card(Rank(r as usize), Suit::Clubs)) == (if s[0] == Card(
            Rank(r as usize),
            Suit::Clubs,
        ) {
            1nat
        } else {
            0nat
        }) + count_eq(s.skip(1), Card(Rank(r as usize), Suit::Clubs)));
        assert(count_eq(s, Card(Rank(r as usize), Suit::Hearts)) == (if s[0] == Card(
            Rank(r as usize),
            Suit::Hearts,
        ) {
            1nat
        } else {
            0nat
        }) + count_eq(s.skip(1), Card(Rank(r as usize), Suit::Hearts)));
        assert(count_eq(s, Card(Rank(r as usize), Suit::Diamonds)) == (if s[0] == Card(
            Rank(r as usize),
            Suit::Diamonds,
        ) {
            1nat
        } else {
            0nat
        }) + count_eq(s.skip(1), Card(Rank(r as usize), Suit::Diamonds)));
        lemma_deck_rank_sum_step(s, r - 1);
    }
}

/// A sequence of well-formed cards is as long as the summed occurrence
/// counts of the fifty-two cards.
pub proof fn lemma_deck_rank_sum_len(s: Seq<Card>)
    requires
        all_wf(s),
    ensures
        deck_rank_sum(s, 13) == s.len(),
    decreases s.len(),
{
    if s.len() == 0 {
        lemma_deck_rank_sum_empty(s, 13);
    } else {
        lemma_deck_rank_sum_step(s, 13);
        assert(all_wf(s.skip(1))) by {
            assert(forall|i: int| 0 <= i < s.skip(1).len() ==> s.skip(1)[i] == s[i + 1]);
        }
        lemma_deck_rank_sum_len(s.skip(1));
    }
}

proof fn lemma_deck_rank_sum_empty(s: Seq<Card>, r: int)
    requires
        s.len() == 0,
    ensures
        deck_rank_sum(s, r) == 0,
    decreases r,
{
    if r > 0 {
        lemma_deck_rank_sum_empty(s, r - 1);
    }
}

/// If every well-formed card occurs exactly once, the whole collection
/// holds exactly fifty-two cards.
pub proof fn lemma_full_deck_len(s: Seq<Card>)
    requires
        all_wf(s),
        forall|c: Card| c.wf() ==> #[trigger] count_eq(s, c) == 1,
    ensures
        s.len() == 52,
{
    lemma_deck_rank_sum_len(s);
    lemma_deck_rank_sum_ones(s, 13);
}

proof fn lemma_deck_rank_sum_ones(s: Seq<Card>, r: int)
    requires
        0 <= r <= 13,
        forall|c: Card| c.wf() ==> #[trigger] count_eq(s, c) == 1,
    ensures
        deck_rank_sum(s, r) == 4 * r,
    decreases r,
{
    if r > 0 {
        assert(Card(Rank(r as usize), Suit::Spades).wf());
        assert(Card(Rank(r as usize), Suit::Clubs).wf());
        assert(Card(Rank(r as usize), Suit::Hearts).wf());
        assert(Card(Rank(r as usize), Suit::Diamonds).wf());
        lemma_deck_rank_sum_ones(s, r - 1);
    }
}

/// Concatenating well-formed piles gives a well-formed sequence.
pub proof fn lemma_all_wf_concat_cols(cols: Seq<Seq<Card>>)
    requires
        all_wf_cols(cols),
    ensures
        all_wf(concat_cols(cols)),
    decreases cols.len(),
{
    if cols.len() > 0 {
        assert(all_wf_cols(cols.skip(1))) by {
            assert(forall|i: int| 0 <= i < cols.skip(1).len() ==> cols.skip(1)[i] == cols[i + 1]);
        }
        lemma_all_wf_concat_cols(cols.skip(1));
        assert forall|i: int|
            0 <= i < concat_cols(cols).len() implies concat_cols(cols)[i].wf() by {
            if i < cols[0].len() {
                assert(concat_cols(cols)[i] == cols[0][i]);
            } else {
                assert(concat_cols(cols)[i] == concat_cols(cols.skip(1))[i - cols[0].len()]);
            }
        }
    }
}

/// Concatenating well-formed slots gives a well-formed sequence.
pub proof fn lemma_all_wf_concat_slots(slots: Seq<Option<Card>>)
    requires
        all_wf_slots(slots),
    ensures
        all_wf(concat_slots(slots)),
    decreases slots.len(),
{
    if slots.len() > 0 {
        assert(all_wf_slots(slots.skip(1))) by {
            assert(forall|i: int|
                0 <= i < slots.skip(1).len() ==> slots.skip(1)[i] == slots[i + 1]);
        }
        lemma_all_wf_concat_slots(slots.skip(1));
        let head: Seq<Card> = match slots[0] {
            Some(x) => seq![x],
            None => Seq::empty(),
        };
        assert forall|i: int|
            0 <= i < concat_slots(slots).len() implies concat_slots(slots)[i].wf() by {
            if i < head.len() {
                assert(concat_slots(slots)[i] == head[i]);
            } else {
                assert(concat_slots(slots)[i] == concat_slots(slots.skip(1))[i - head.len()]);
            }
        }
    }
}

/// A row of empty piles holds no card.
pub proof fn lemma_count_eq_cols_empty(cols: Seq<Seq<Card>>, c: Card)
    requires
        forall|i: int| 0 <= i < cols.len() ==> (#[trigger] cols[i]).len() == 0,
    ensures
        count_eq_cols(cols, c) == 0,
    decreases cols.len(),
{
    if cols.len() > 0 {
        assert(forall|i: int| 0 <= i < cols.skip(1).len() ==> cols.skip(1)[i] == cols[i + 1]);
        lemma_count_eq_cols_empty(cols.skip(1), c);
    }
}

/// A row of empty slots holds no card.
pub proof fn lemma_count_eq_slots_none(slots: Seq<Option<Card>>, c: Card)
    requires
        forall|i: int| 0 <= i < slots.len() ==> (#[trigger] slots[i]) is None,
    ensures
        count_eq_slots(slots, c) == 0,
    decreases slots.len(),
{
    if slots.len() > 0 {
        assert(forall|i: int| 0 <= i < slots.skip(1).len() ==> slots.skip(1)[i] == slots[i + 1]);
        lemma_count_eq_slots_none(slots.skip(1), c);
    }
}

} // verus!
