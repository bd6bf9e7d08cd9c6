//! The tableau: eight top-accessible columns of descending,
//! alternating-colour piles, with single-card and whole-stack picking.

use vstd::prelude::*;

use crate::card::{playable_pair_spec, Card, ProximateCard, Rank, RawCard, ShownCard,
    NUMBER_OF_CARDS_IN_PACK};
use crate::counting::{
    all_wf, count_matches, count_matches_cols, lemma_count_matches_cols_skip_step,
    lemma_count_matches_push,
};
use crate::error::GameError;
use crate::game::CardLocation;
use crate::pickables::{
    CardMove, FindProxPair, HoldsCard, HoldsStack, PickableCard, PickableStack, StackMove,
};
use crate::ternary::Ternary;

verus! {

pub const MAX_NUMBER_OF_CARDS_IN_COLUMN: usize = NUMBER_OF_CARDS_IN_PACK * 2;

pub const NUMBER_OF_COLUMNS_IN_TABLEAU: usize = 8;

/// A revision marker a column carries along; picks computed against an
/// older revision could be recognised as stale by comparing tokens.
#[derive(Debug, Clone, Copy, PartialEq, Eq, Structural)]
pub struct StateToken(pub usize);

impl StateToken {
    pub fn new() -> (r: Self)
        ensures
            r == StateToken(0),
    {
        StateToken(0)
    }

    pub fn into_next(self) -> (r: Self)
        requires
            self.0 < usize::MAX,
        ensures
            r == StateToken((self.0 + 1) as usize),
    {
        StateToken(self.0 + 1)
    }
}

/// A position inside one column: how many cards sit above the target
/// (`depth`), remembered together with the column size at the moment of
/// computation.
#[derive(Debug, Clone, Copy, PartialEq, Eq, Structural)]
pub struct ColumnDepth {
    pub column_size: usize,
    pub depth: usize,
}

#[derive(Debug, Clone, Copy, PartialEq, Eq, Structural)]
pub struct TableauPosition(pub usize);

#[derive(PartialEq, Eq, Clone, Copy, Structural, Debug)]
pub struct TableauCardLocation(pub TableauPosition, pub ColumnDepth);

impl TableauCardLocation {
    pub fn get_distance(&self) -> (r: usize)
        ensures
            r == self.1.depth,
    {
        self.1.depth
    }

    /// Whether this location denotes the cell at the given column position
    /// and height above the column's base.
    pub open spec fn matches_from_base_spec(self, pos: int, inverted_depth: int) -> bool {
        &&& self.0.0 == pos
        &&& inverted_depth <= self.1.column_size - 1
        &&& self.1.depth == self.1.column_size - 1 - inverted_depth
    }

    pub fn matches_from_base(&self, pos: usize, inverted_depth: usize) -> (r: bool)
        requires
            self.1.column_size > 0,
        ensures
            r == self.matches_from_base_spec(pos as int, inverted_depth as int),
    {
        let max_inverted_depth = self.1.column_size - 1;

        self.0.0 == pos && inverted_depth <= max_inverted_depth && self.1.depth
            == max_inverted_depth - inverted_depth
    }

    /// The locations of every card sitting above this one in its column.
    pub fn get_child_locations(&self) -> (r: Vec<TableauCardLocation>)
        ensures
            r@.len() == self.1.depth,
            forall|i: int|
                0 <= i < r@.len() ==> r@[i] == TableauCardLocation(
                    self.0,
                    ColumnDepth { column_size: self.1.column_size, depth: i as usize },
                ),
    {
        let mut out: Vec<TableauCardLocation> = Vec::new();
        let mut depth: usize = 0;
        while depth < self.1.depth
            invariant
                depth <= self.1.depth,
                out@.len() == depth,
                forall|i: int|
                    0 <= i < out@.len() ==> out@[i] == TableauCardLocation(
                        self.0,
                        ColumnDepth { column_size: self.1.column_size, depth: i as usize },
                    ),
            decreases self.1.depth - depth,
        {
            out.push(
                TableauCardLocation(
                    self.0,
                    ColumnDepth { column_size: self.1.column_size, depth },
                ),
            );
            depth = depth + 1;
        }
        out
    }

    pub fn position(&self) -> (r: TableauPosition)
        ensures
            r == self.0,
    {
        self.0
    }
}

/// The top `n` cards of a column form a liftable stack: the run exists and
/// every adjacent pair of it is a playable pair, parent below child.
pub open spec fn stack_pickable(s: Seq<Card>, n: int) -> bool {
    &&& 1 <= n <= s.len()
    &&& forall|k: int|
        s.len() - n <= k < s.len() - 1 ==> #[trigger] playable_pair_spec(s[k], s[k + 1])
}

/// The size of the longest liftable stack at the top of a column: the
/// number of consecutive playable pairs counted downward from the top,
/// plus the top card itself; zero for an empty column.
pub open spec fn largest_pickable_run(s: Seq<Card>) -> int
    decreases s.len(),
{
    if s.len() == 0 {
        0
    } else if s.len() == 1 {
        1
    } else if playable_pair_spec(s[s.len() - 2], s[s.len() - 1]) {
        1 + largest_pickable_run(s.drop_last())
    } else {
        1
    }
}

/// A stack size is liftable exactly when it lies between one and the
/// longest run: every smaller stack of a liftable one is liftable, and no
/// stack beyond the longest run is.
pub proof fn lemma_stack_pickable_iff_run(s: Seq<Card>, n: int)
    ensures
        stack_pickable(s, n) <==> (1 <= n <= largest_pickable_run(s)),
        largest_pickable_run(s) <= s.len(),
        s.len() > 0 ==> largest_pickable_run(s) >= 1,
    decreases s.len(),
{
    if s.len() <= 1 {
    } else {
        let l = s.len() as int;
        let t = s.drop_last();
        lemma_stack_pickable_iff_run(t, n - 1);
        assert(forall|k: int| 0 <= k < t.len() ==> t[k] == s[k]);
        if playable_pair_spec(s[l - 2], s[l - 1]) {
            if 2 <= n <= l {
                if stack_pickable(t, n - 1) {
                    assert forall|k: int| l - n <= k < l - 1 implies #[trigger] playable_pair_spec(
                        s[k],
                        s[k + 1],
                    ) by {
                        if k < l - 2 {
                            assert(playable_pair_spec(t[k], t[k + 1]));
                            assert(t[k] == s[k] && t[k + 1] == s[k + 1]);
                        } else {
                            assert(k == l - 2);
                            assert(s[k] == s[l - 2] && s[k + 1] == s[l - 1]);
                        }
                    }
                }
                if stack_pickable(s, n) {
                    assert forall|k: int| t.len() - (n - 1) <= k < t.len() - 1 implies #[trigger] playable_pair_spec(
                        t[k],
                        t[k + 1],
                    ) by {
                        assert(playable_pair_spec(s[k], s[k + 1]));
                    }
                }
            }
        } else {
            if n >= 2 && stack_pickable(s, n) {
                let k = l - 2;
                assert(playable_pair_spec(s[k], s[k + 1]));
                assert(s[k + 1] == s[l - 1]);
            }
        }
    }
}

/// One tableau column: its fixed position, its cards bottom first, and the
/// revision token.
#[derive(Debug)]
pub struct Column {
    pub position: TableauPosition,
    pub cards: Vec<Card>,
    pub state_token: StateToken,
}

impl Column {
    /// Build a column from dealt cards, in deal order: the first-dealt
    /// card sits at the bottom and the last-dealt card on top.
    pub fn new(position: usize, raw_cards: Vec<RawCard>) -> (r: Self)
        requires
            forall|i: int|
                0 <= i < raw_cards@.len() ==> 1 <= (#[trigger] raw_cards@[i]).0
                    <= crate::card::KING,
        ensures
            r.position == TableauPosition(position),
            r.state_token == StateToken(0),
            col_from_raw(r.cards@, raw_cards@),
            all_wf(r.cards@),
    {
        let n = raw_cards.len();
        let mut cards_vec: Vec<Card> = Vec::new();
        let mut idx: usize = 0;
        while idx < n
            invariant
                idx <= n,
                n == raw_cards@.len(),
                cards_vec@.len() == idx,
                forall|i: int|
                    0 <= i < raw_cards@.len() ==> 1 <= (#[trigger] raw_cards@[i]).0
                        <= crate::card::KING,
                forall|i: int|
                    0 <= i < cards_vec@.len() ==> cards_vec@[i] == Card(
                        Rank((#[trigger] raw_cards@[i]).0),
                        raw_cards@[i].1,
                    ),
            decreases n - idx,
        {
            let (value, pack) = raw_cards[idx];
            cards_vec.push(Card::new(value, pack));
            idx = idx + 1;
        }
        let r = Column {
            position: TableauPosition(position),
            cards: cards_vec,
            state_token: StateToken::new(),
        };
        proof {
            assert forall|j: int|
                0 <= j < raw_cards@.len() implies r.cards@[j] == Card(
                Rank((#[trigger] raw_cards@[j]).0),
                raw_cards@[j].1,
            ) by {
                assert(r.cards@[j] == Card(Rank(raw_cards@[j].0), raw_cards@[j].1));
            }
            assert forall|j: int| 0 <= j < r.cards@.len() implies r.cards@[j].wf() by {
                assert(r.cards@[j] == Card(Rank(raw_cards@[j].0), raw_cards@[j].1));
            }
        }
        r
    }

    pub fn get_top_card(&self) -> (r: Option<Card>)
        ensures
            match r {
                Some(c) => self.cards@.len() > 0 && c == self.cards@.last(),
                None => self.cards@.len() == 0,
            },
    {
        if self.cards.len() > 0 {
            Some(self.cards[self.cards.len() - 1])
        } else {
            None
        }
    }

    /// The top card as a pick at distance zero, or none when empty.
    pub fn get_card_pick(&self) -> (r: Option<PickableCard>)
        ensures
            match r {
                Some(p) => self.cards@.len() > 0 && p.0 == self.cards@.last() && p.1
                    == CardLocation::Tableau(
                    TableauCardLocation(
                        self.position,
                        ColumnDepth { column_size: self.cards@.len() as usize, depth: 0 },
                    ),
                ),
                None => self.cards@.len() == 0,
            },
    {
        match self.get_top_card() {
            Some(c) => {
                let len = self.cards.len();
                Some(
                    PickableCard::new(
                        &c,
                        CardLocation::Tableau(
                            TableauCardLocation(
                                self.position,
                                ColumnDepth { column_size: len, depth: 0 },
                            ),
                        ),
                    ),
                )
            },
            None => None,
        }
    }

    /// The first card to be lifted: the top of the column.
    pub fn first_card(&self) -> (r: Option<Card>)
        ensures
            match r {
                Some(c) => self.cards@.len() > 0 && c == self.cards@.last(),
                None => self.cards@.len() == 0,
            },
    {
        self.get_top_card()
    }

    /// The card at a given top-down position.
    pub fn at_depth(&self, depth: ColumnDepth) -> (r: Card)
        requires
            depth.depth < self.cards@.len(),
        ensures
            r == self.cards@[self.cards@.len() - 1 - depth.depth],
    {
        self.cards[self.cards.len() - 1 - depth.depth]
    }

    pub fn len(&self) -> (r: usize)
        ensures
            r == self.cards@.len(),
    {
        self.cards.len()
    }

    /// The tableau rule: opposite colours, child one rank below parent.
    pub fn is_playable_pair(parent: &Card, child: &Card) -> (r: bool)
        requires
            child.wf(),
        ensures
            r == playable_pair_spec(*parent, *child),
    {
        parent.is_complementary_pack(child) && parent.is_playable_pair_bigger(child)
    }

    /// The largest liftable stack at the top of this column, or none when
    /// the column is empty.
    pub fn get_largest_stack_pick(&self) -> (r: Option<PickableStack>)
        requires
            self.wf(),
        ensures
            match r {
                Some(ps) => self.cards@.len() > 0 && ps.size as int == largest_pickable_run(
                    self.cards@,
                ) && ps.deepest_card == self.cards@[self.cards@.len() - ps.size]
                    && ps.location == self.stack_location(ps.size as int),
                None => self.cards@.len() == 0,
            },
    {
        if self.cards.len() == 0 {
            return None;
        }
        proof {
            lemma_stack_pickable_iff_run(self.cards@, 1);
        }
        let mut best: PickableStack = match self.can_pick_stack(1) {
            Some(ps) => ps,
            None => {
                proof {
                    assert(false);
                }
                return None;
            },
        };
        let mut stop: bool = false;
        while !stop && best.size < self.cards.len()
            invariant
                self.wf(),
                1 <= best.size <= self.cards@.len(),
                stack_pickable(self.cards@, best.size as int),
                best.deepest_card == self.cards@[self.cards@.len() - best.size],
                best.location == self.stack_location(best.size as int),
                stop ==> !stack_pickable(self.cards@, best.size + 1),
            decreases self.cards@.len() - best.size + (if stop {
                0int
            } else {
                1int
            }),
        {
            match self.can_pick_stack(best.size + 1) {
                Some(ps) => {
                    best = ps;
                },
                None => {
                    stop = true;
                },
            }
        }
        proof {
            lemma_stack_pickable_iff_run(self.cards@, best.size as int);
            lemma_stack_pickable_iff_run(self.cards@, best.size + 1);
        }
        Some(best)
    }
}

impl HoldsCard for Column {
    open spec fn held(&self) -> Seq<Card> {
        self.cards@
    }

    open spec fn wf(&self) -> bool {
        &&& self.position.0 < NUMBER_OF_COLUMNS_IN_TABLEAU
        &&& all_wf(self.cards@)
    }

    open spec fn pos_id(&self) -> int {
        self.position.0 as int
    }

    /// Placement is legal on an empty column, or when the candidate is of
    /// the opposite colour to, and one rank below, the current top.
    open spec fn accepts_card(&self, card: Card) -> bool {
        self.cards@.len() == 0 || playable_pair_spec(self.cards@.last(), card)
    }

    open spec fn top_location(&self) -> CardLocation {
        CardLocation::Tableau(
            TableauCardLocation(
                self.position,
                ColumnDepth { column_size: self.cards@.len() as usize, depth: 0 },
            ),
        )
    }

    open spec fn empty_pick_error(&self) -> GameError {
        GameError::TriedToPickEmptyColumn
    }

    open spec fn may_receive(&self) -> bool {
        true
    }

    fn try_get_card_pick(&self) -> (r: Option<PickableCard>) {
        self.get_card_pick()
    }

    fn try_get_card_move(&self, picked_card: &PickableCard) -> (r: Option<CardMove>) {
        let legal = match self.get_top_card() {
            Some(top) => Column::is_playable_pair(&top, &picked_card.0),
            None => true,
        };
        if legal {
            let len = self.cards.len();
            Some(
                CardMove::new(
                    picked_card,
                    CardLocation::Tableau(
                        TableauCardLocation(
                            self.position,
                            ColumnDepth { column_size: len, depth: 0 },
                        ),
                    ),
                ),
            )
        } else {
            None
        }
    }

    fn pick_card(&mut self) -> (r: Result<Card, GameError>) {
        if self.cards.len() == 0 {
            return Err(GameError::TriedToPickEmptyColumn);
        }
        match self.cards.pop() {
            Some(card) => {
                proof {
                    assert(self.cards@ =~= old(self).cards@.drop_last());
                }
                Ok(card)
            },
            None => {
                proof {
                    assert(false);
                }
                Err(GameError::TriedToPickEmptyColumn)
            },
        }
    }
}

impl Column {
    /// Put a card on top of this column, unconditionally.
    pub(crate) fn place_card(&mut self, card: Card)
        ensures
            final(self).position == old(self).position,
            final(self).state_token == old(self).state_token,
            final(self).cards@ == old(self).cards@.push(card),
    {
        self.cards.push(card);
    }

    /// Atomically pick from the other holder and place here; fails only
    /// when the pick fails, with no partial mutation.
    pub fn take_card_from<F: HoldsCard>(&mut self, from: &mut F) -> (r: Result<(), GameError>)
        requires
            old(self).wf(),
            old(from).wf(),
        ensures
            final(self).wf(),
            final(from).wf(),
            final(self).position == old(self).position,
            final(from).pos_id() == old(from).pos_id(),
            match r {
                Ok(()) => old(from).held().len() > 0
                    && final(from).held() == old(from).held().drop_last()
                    && final(self).cards@ == old(self).cards@.push(old(from).held().last()),
                Err(e) => *final(self) == *old(self) && *final(from) == *old(from)
                    && old(from).held().len() == 0 && e == old(from).empty_pick_error(),
            },
    {
        match from.pick_card() {
            Ok(card) => {
                self.cards.push(card);
                Ok(())
            },
            Err(e) => Err(e),
        }
    }
}

impl HoldsStack for Column {
    open spec fn stack_held(&self) -> Seq<Card> {
        self.cards@
    }

    open spec fn stack_wf(&self) -> bool {
        self.wf()
    }

    open spec fn stack_location(&self, size: int) -> CardLocation {
        CardLocation::Tableau(
            TableauCardLocation(
                self.position,
                ColumnDepth {
                    column_size: self.cards@.len() as usize,
                    depth: (if size >= 1 {
                        size - 1
                    } else {
                        0
                    }) as usize,
                },
            ),
        )
    }

    open spec fn accepts_stack(&self, deepest: Card) -> bool {
        self.cards@.len() == 0 || playable_pair_spec(self.cards@.last(), deepest)
    }

    fn can_pick_stack(&self, pick_size: usize) -> (r: Option<PickableStack>) {
        let len = self.cards.len();
        if pick_size < 1 || pick_size > len {
            return None;
        }
        let mut k: usize = len - pick_size;
        while k < len - 1
            invariant
                self.wf(),
                len == self.cards@.len(),
                1 <= pick_size <= len,
                len - pick_size <= k <= len,
                forall|j: int|
                    len - pick_size <= j < k ==> #[trigger] playable_pair_spec(
                        self.cards@[j],
                        self.cards@[j + 1],
                    ),
            decreases len - k,
        {
            if !Column::is_playable_pair(&self.cards[k], &self.cards[k + 1]) {
                return None;
            }
            k = k + 1;
        }
        let deepest = self.cards[len - pick_size];
        Some(
            PickableStack::new(
                &deepest,
                CardLocation::Tableau(
                    TableauCardLocation(
                        self.position,
                        ColumnDepth { column_size: len, depth: pick_size - 1 },
                    ),
                ),
                pick_size,
            ),
        )
    }

    fn can_put_stack(&self, picked_stack: &PickableStack) -> (r: Option<StackMove>) {
        let legal = match self.get_top_card() {
            Some(top) => Column::is_playable_pair(&top, &picked_stack.deepest_card),
            None => true,
        };
        if legal {
            let len = self.cards.len();
            Some(
                StackMove::new(
                    picked_stack,
                    CardLocation::Tableau(
                        TableauCardLocation(
                            self.position,
                            ColumnDepth { column_size: len, depth: 0 },
                        ),
                    ),
                ),
            )
        } else {
            None
        }
    }

    fn pick_stack(&mut self, pick: PickableStack) -> (r: Result<Vec<Card>, GameError>) {
        let card_count = self.cards.len();

        if card_count < pick.size {
            return Err(GameError::InsufficientCardsForStackPick { stack_size: pick.size });
        }
        let lifted = self.cards.split_off(card_count - pick.size);
        proof {
            assert(lifted@ =~= old(self).cards@.skip(old(self).cards@.len() - pick.size));
            assert(self.cards@ =~= old(self).cards@.take(old(self).cards@.len() - pick.size));
        }
        Ok(lifted)
    }
}

impl Column {
    /// Atomically pick a stack from the other holder and append it here.
    pub fn take_stack_from<T: HoldsStack>(&mut self, from: &mut T, pick: PickableStack) -> (r:
        Result<(), GameError>)
        requires
            old(self).wf(),
            old(from).stack_wf(),
        ensures
            final(self).wf(),
            final(from).stack_wf(),
            final(self).position == old(self).position,
            match r {
                Ok(()) => pick.size <= old(from).stack_held().len() && final(from).stack_held()
                    == old(from).stack_held().take(old(from).stack_held().len() - pick.size)
                    && final(self).cards@ == old(self).cards@ + old(from).stack_held().skip(
                    old(from).stack_held().len() - pick.size,
                ),
                Err(e) => *final(self) == *old(self) && *final(from) == *old(from)
                    && old(from).stack_held().len() < pick.size
                    && e == (GameError::InsufficientCardsForStackPick { stack_size: pick.size }),
            },
    {
        match from.pick_stack(pick) {
            Ok(mut picked) => {
                proof {
                    assert forall|i: int|
                        0 <= i < (old(self).cards@ + picked@).len() implies (old(self).cards@
                        + picked@)[i].wf() by {
                        if i < old(self).cards@.len() {
                            assert((old(self).cards@ + picked@)[i] == old(self).cards@[i]);
                        } else {
                            assert((old(self).cards@ + picked@)[i] == picked@[i - old(
                                self,
                            ).cards@.len()]);
                        }
                    }
                }
                self.cards.append(&mut picked);
                Ok(())
            },
            Err(e) => Err(e),
        }
    }
}

impl FindProxPair<ColumnDepth> for Column {
    open spec fn prox_count(&self, prox: ProximateCard) -> nat {
        count_matches(self.cards@, prox)
    }

    open spec fn loc_is_match(&self, loc: ColumnDepth, prox: ProximateCard) -> bool {
        &&& loc.column_size == self.cards@.len()
        &&& loc.depth < self.cards@.len()
        &&& self.cards@[self.cards@.len() - 1 - loc.depth].matches_spec(prox)
    }

    /// Top-down order: the shallower hit is visited first.
    open spec fn loc_before(&self, a: ColumnDepth, b: ColumnDepth) -> bool {
        a.depth < b.depth
    }

    open spec fn prox_wf(&self) -> bool {
        self.wf()
    }

    fn find_prox_pair(&self, prox_card: &ProximateCard) -> (r: Ternary<ColumnDepth>) {
        let n = self.cards.len();
        let ghost total = count_matches(self.cards@, *prox_card);
        let mut found: Ternary<ColumnDepth> = Ternary::Zero;
        let ghost mut seen: nat = 0;
        let mut depth: usize = 0;
        proof {
            assert(self.cards@.take(n as int) =~= self.cards@);
        }
        while depth < n
            invariant
                n == self.cards@.len(),
                depth <= n,
                total == count_matches(self.cards@, *prox_card),
                seen + count_matches(self.cards@.take(n - depth), *prox_card) == total,
                seen == 0 ==> found is Zero,
                seen == 1 ==> found is One,
                seen >= 2 ==> found is Two,
                found matches Ternary::One(a) ==> a.column_size == n && a.depth < depth
                    && self.cards@[n - 1 - a.depth].matches_spec(*prox_card),
                found matches Ternary::Two(a, b) ==> a.column_size == n && a.depth < depth
                    && self.cards@[n - 1 - a.depth].matches_spec(*prox_card) && b.column_size == n
                    && b.depth < depth && self.cards@[n - 1 - b.depth].matches_spec(*prox_card)
                    && a.depth < b.depth,
            decreases n - depth,
        {
            proof {
                assert(self.cards@.take(n - depth) =~= self.cards@.take(n - depth - 1).push(
                    self.cards@[n - 1 - depth],
                ));
                lemma_count_matches_push(
                    self.cards@.take(n - depth - 1),
                    self.cards@[n - 1 - depth],
                    *prox_card,
                );
            }
            if self.cards[n - 1 - depth].matches_prox_card(prox_card) {
                proof {
                    seen = seen + 1;
                }
                let d = ColumnDepth { column_size: n, depth };
                match found {
                    Ternary::Zero => {
                        found = Ternary::One(d);
                    },
                    Ternary::One(fst) => {
                        found = Ternary::Two(fst, d);
                    },
                    Ternary::Two(_, _) => {},
                }
            }
            depth = depth + 1;
        }
        proof {
            assert(self.cards@.take(0) =~= Seq::<Card>::empty());
            assert(seen == total);
            match found {
                Ternary::Zero => {
                    assert(seen == 0);
                    assert(found@.len() == 0);
                },
                Ternary::One(a) => {
                    assert(seen == 1);
                    assert(found@ =~= seq![a]);
                    assert(found@[0] == a);
                    assert(self.loc_is_match(a, *prox_card));
                },
                Ternary::Two(a, b) => {
                    assert(seen >= 2);
                    assert(found@ =~= seq![a, b]);
                    assert(found@[0] == a && found@[1] == b);
                    assert(self.loc_is_match(a, *prox_card) && self.loc_is_match(b, *prox_card));
                    assert(self.loc_before(a, b));
                    assert(a != b);
                },
            }
            assert(found@.len() == vstd::math::min(2, seen as int));
            assert(self.prox_count(*prox_card) == total);
            assert forall|j: int|
                0 <= j < found@.len() implies self.loc_is_match(#[trigger] found@[j], *prox_card) by {
                match found {
                    Ternary::Zero => {},
                    Ternary::One(a) => {
                        assert(found@[j] == a);
                    },
                    Ternary::Two(a, b) => {
                        if j == 0 {
                            assert(found@[j] == a);
                        } else {
                            assert(found@[j] == b);
                        }
                    },
                }
            }
        }
        found
    }
}

/// The whole tableau row.
#[derive(Debug)]
pub struct Tableau(pub Vec<Column>);

/// The top card of every non-empty column, in column order.
pub open spec fn tableau_tops(cols: Seq<Seq<Card>>) -> Seq<Card>
    decreases cols.len(),
{
    if cols.len() == 0 {
        Seq::empty()
    } else {
        tableau_tops(cols.drop_last()) + (if cols.last().len() == 0 {
            Seq::empty()
        } else {
            seq![cols.last().last()]
        })
    }
}

/// The expected pick list of the tableau: one top-card pick per non-empty
/// column, in column order, each at distance zero.
pub open spec fn tableau_picks(cols: Seq<Seq<Card>>) -> Seq<PickableCard>
    decreases cols.len(),
{
    if cols.len() == 0 {
        Seq::empty()
    } else {
        tableau_picks(cols.drop_last()) + (if cols.last().len() == 0 {
            Seq::empty()
        } else {
            seq![
                PickableCard(
                    cols.last().last(),
                    CardLocation::Tableau(
                        TableauCardLocation(
                            TableauPosition((cols.len() - 1) as usize),
                            ColumnDepth { column_size: cols.last().len() as usize, depth: 0 },
                        ),
                    ),
                ),
            ]
        })
    }
}

/// The expected put list of the tableau for one pick: one legal move per
/// column that accepts the picked card, in column order.
pub open spec fn tableau_puts(cols: Seq<Seq<Card>>, pick: PickableCard) -> Seq<CardMove>
    decreases cols.len(),
{
    if cols.len() == 0 {
        Seq::empty()
    } else {
        tableau_puts(cols.drop_last(), pick) + (if cols.last().len() == 0 || playable_pair_spec(
            cols.last().last(),
            pick.0,
        ) {
            seq![
                CardMove {
                    card: pick.0,
                    from: pick.1,
                    to: CardLocation::Tableau(
                        TableauCardLocation(
                            TableauPosition((cols.len() - 1) as usize),
                            ColumnDepth { column_size: cols.last().len() as usize, depth: 0 },
                        ),
                    ),
                },
            ]
        } else {
            Seq::empty()
        })
    }
}

/// The expected stack-pick list of the tableau: per non-empty column, its
/// largest liftable stack.
pub open spec fn tableau_stack_picks(cols: Seq<Seq<Card>>) -> Seq<PickableStack>
    decreases cols.len(),
{
    if cols.len() == 0 {
        Seq::empty()
    } else {
        tableau_stack_picks(cols.drop_last()) + (if cols.last().len() == 0 {
            Seq::empty()
        } else {
            seq![
                PickableStack {
                    deepest_card: cols.last()[cols.last().len() - largest_pickable_run(
                        cols.last(),
                    )],
                    location: CardLocation::Tableau(
                        TableauCardLocation(
                            TableauPosition((cols.len() - 1) as usize),
                            ColumnDepth {
                                column_size: cols.last().len() as usize,
                                depth: (largest_pickable_run(cols.last()) - 1) as usize,
                            },
                        ),
                    ),
                    size: largest_pickable_run(cols.last()) as usize,
                },
            ]
        })
    }
}

impl Tableau {
    /// What each column holds, in column order, bottom first.
    pub open spec fn cols_view(&self) -> Seq<Seq<Card>> {
        self.0@.map_values(|c: Column| c.cards@)
    }

    pub open spec fn wf(&self) -> bool {
        &&& self.0@.len() == NUMBER_OF_COLUMNS_IN_TABLEAU
        &&& forall|i: int| 0 <= i < self.0@.len() ==> (#[trigger] self.0@[i]).position.0 == i
        &&& forall|i: int| 0 <= i < self.0@.len() ==> all_wf((#[trigger] self.0@[i]).cards@)
    }

    /// Build the tableau from the dealt columns, first-dealt card first in
    /// each inner sequence.
    pub fn new(raw_columns: Vec<Vec<RawCard>>) -> (r: Self)
        requires
            raw_columns@.len() == NUMBER_OF_COLUMNS_IN_TABLEAU,
            forall|i: int, j: int|
                0 <= i < raw_columns@.len() && 0 <= j < raw_columns@[i]@.len() ==> 1 <= (
                #[trigger] raw_columns@[i]@[j]).0 <= crate::card::KING,
        ensures
            r.wf(),
            forall|i: int|
                0 <= i < NUMBER_OF_COLUMNS_IN_TABLEAU ==> column_built_from(
                    #[trigger] r.0@[i],
                    raw_columns@[i]@,
                    i,
                ),
    {
        let ghost orig = raw_columns@;
        let mut raws = raw_columns;
        let mut cols: Vec<Column> = Vec::new();
        let mut i: usize = 0;
        proof {
            assert(orig.skip(0) =~= orig);
        }
        while i < NUMBER_OF_COLUMNS_IN_TABLEAU
            invariant
                i <= NUMBER_OF_COLUMNS_IN_TABLEAU,
                orig.len() == NUMBER_OF_COLUMNS_IN_TABLEAU,
                raws@ == orig.skip(i as int),
                cols@.len() == i,
                forall|k: int, j: int|
                    0 <= k < orig.len() && 0 <= j < orig[k]@.len() ==> 1 <= (
                    #[trigger] orig[k]@[j]).0 <= crate::card::KING,
                forall|k: int|
                    0 <= k < cols@.len() ==> column_built_from(#[trigger] cols@[k], orig[k]@, k)
                        && all_wf(cols@[k].cards@),
            decreases NUMBER_OF_COLUMNS_IN_TABLEAU - i,
        {
            proof {
                assert(raws@[0] == orig[i as int]);
                assert(raws@.remove(0) =~= orig.skip(i + 1));
            }
            let raw = raws.remove(0);
            proof {
                assert(forall|j: int|
                    0 <= j < raw@.len() ==> 1 <= (#[trigger] raw@[j]).0 <= crate::card::KING);
            }
            let col = Column::new(i, raw);
            cols.push(col);
            i = i + 1;
        }
        Tableau(cols)
    }

    /// The currently exposed card of every non-empty column.
    pub fn top_cards(&self) -> (r: Vec<Card>)
        requires
            self.wf(),
        ensures
            r@ == tableau_tops(self.cols_view()),
    {
        let mut out: Vec<Card> = Vec::new();
        let mut i: usize = 0;
        while i < self.0.len()
            invariant
                self.wf(),
                i <= self.0@.len(),
                out@ == tableau_tops(self.cols_view().take(i as int)),
            decreases self.0@.len() - i,
        {
            proof {
                assert(self.cols_view()[i as int] == self.0@[i as int].cards@);
                assert(self.cols_view().take(i + 1).drop_last() =~= self.cols_view().take(i as int));
                assert(self.cols_view().take(i + 1).last() == self.cols_view()[i as int]);
            }
            match self.0[i].get_top_card() {
                Some(c) => {
                    out.push(c);
                },
                None => {},
            }
            i = i + 1;
        }
        proof {
            assert(self.cols_view().take(self.cols_view().len() as int) =~= self.cols_view());
        }
        out
    }

    /// All currently liftable picks: the top card of every non-empty
    /// column.
    #[verifier::rlimit(60)]
    pub fn get_valid_card_picks(&self) -> (r: Vec<PickableCard>)
        requires
            self.wf(),
        ensures
            r@ == tableau_picks(self.cols_view()),
    {
        let mut out: Vec<PickableCard> = Vec::new();
        let mut i: usize = 0;
        while i < self.0.len()
            invariant
                self.wf(),
                i <= self.0@.len(),
                out@ == tableau_picks(self.cols_view().take(i as int)),
            decreases self.0@.len() - i,
        {
            proof {
                assert(self.cols_view()[i as int] == self.0@[i as int].cards@);
                assert(self.cols_view().take(i + 1).drop_last() =~= self.cols_view().take(i as int));
                assert(self.cols_view().take(i + 1).last() == self.cols_view()[i as int]);
            }
            match self.0[i].get_card_pick() {
                Some(p) => {
                    out.push(p);
                },
                None => {},
            }
            i = i + 1;
        }
        proof {
            assert(self.cols_view().take(self.cols_view().len() as int) =~= self.cols_view());
        }
        out
    }

    /// All legal destinations here for the picked card.
    #[verifier::rlimit(60)]
    pub fn get_valid_card_puts(&self, pick: &PickableCard) -> (r: Vec<CardMove>)
        requires
            self.wf(),
            pick.0.wf(),
        ensures
            r@ == tableau_puts(self.cols_view(), *pick),
    {
        let mut out: Vec<CardMove> = Vec::new();
        let mut i: usize = 0;
        while i < self.0.len()
            invariant
                self.wf(),
                i <= self.0@.len(),
                pick.0.wf(),
                out@ == tableau_puts(self.cols_view().take(i as int), *pick),
            decreases self.0@.len() - i,
        {
            proof {
                assert(self.cols_view()[i as int] == self.0@[i as int].cards@);
                assert(self.cols_view().take(i + 1).drop_last() =~= self.cols_view().take(i as int));
                assert(self.cols_view().take(i + 1).last() == self.cols_view()[i as int]);
            }
            match self.0[i].try_get_card_move(pick) {
                Some(m) => {
                    out.push(m);
                },
                None => {},
            }
            i = i + 1;
        }
        proof {
            assert(self.cols_view().take(self.cols_view().len() as int) =~= self.cols_view());
        }
        out
    }

    /// The largest liftable stack of every non-empty column.
    #[verifier::rlimit(60)]
    pub fn get_valid_stack_picks(&self) -> (r: Vec<PickableStack>)
        requires
            self.wf(),
        ensures
            r@ == tableau_stack_picks(self.cols_view()),
    {
        let mut out: Vec<PickableStack> = Vec::new();
        let mut i: usize = 0;
        while i < self.0.len()
            invariant
                self.wf(),
                i <= self.0@.len(),
                out@ == tableau_stack_picks(self.cols_view().take(i as int)),
            decreases self.0@.len() - i,
        {
            proof {
                assert(self.cols_view()[i as int] == self.0@[i as int].cards@);
                assert(self.cols_view().take(i + 1).drop_last() =~= self.cols_view().take(i as int));
                assert(self.cols_view().take(i + 1).last() == self.cols_view()[i as int]);
                lemma_stack_pickable_iff_run(self.0@[i as int].cards@, 1);
            }
            match self.0[i].get_largest_stack_pick() {
                Some(p) => {
                    out.push(p);
                },
                None => {},
            }
            i = i + 1;
        }
        proof {
            assert(self.cols_view().take(self.cols_view().len() as int) =~= self.cols_view());
        }
        out
    }
}

/// A card sequence holds exactly the dealt cards in deal order: the
/// first-dealt card at the bottom, the last-dealt card on top.
pub open spec fn col_from_raw(cards: Seq<Card>, raw: Seq<RawCard>) -> bool {
    &&& cards.len() == raw.len()
    &&& forall|j: int|
        0 <= j < raw.len() ==> cards[j] == Card(Rank((#[trigger] raw[j]).0), raw[j].1)
}

/// A column holds exactly the dealt cards in deal order, at the given
/// position, with a fresh revision token.
pub open spec fn column_built_from(c: Column, raw: Seq<RawCard>, pos: int) -> bool {
    &&& c.position.0 == pos
    &&& c.state_token == StateToken(0)
    &&& col_from_raw(c.cards@, raw)
}

impl FindProxPair<TableauCardLocation> for Tableau {
    open spec fn prox_count(&self, prox: ProximateCard) -> nat {
        count_matches_cols(self.cols_view(), prox)
    }

    open spec fn loc_is_match(&self, loc: TableauCardLocation, prox: ProximateCard) -> bool {
        let cols = self.cols_view();
        &&& loc.0.0 < cols.len()
        &&& loc.1.column_size == cols[loc.0.0 as int].len()
        &&& loc.1.depth < cols[loc.0.0 as int].len()
        &&& cols[loc.0.0 as int][cols[loc.0.0 as int].len() - 1 - loc.1.depth].matches_spec(prox)
    }

    /// Scan order: columns in position order, top-down within one column.
    open spec fn loc_before(&self, a: TableauCardLocation, b: TableauCardLocation) -> bool {
        a.0.0 < b.0.0 || (a.0.0 == b.0.0 && a.1.depth < b.1.depth)
    }

    open spec fn prox_wf(&self) -> bool {
        self.wf()
    }

    fn find_prox_pair(&self, prox_card: &ProximateCard) -> (r: Ternary<TableauCardLocation>) {
        let ghost cols = self.cols_view();
        let ghost total = count_matches_cols(cols, *prox_card);
        let mut found: Ternary<TableauCardLocation> = Ternary::Zero;
        let ghost mut seen: nat = 0;
        let mut i: usize = 0;
        proof {
            assert(cols.skip(0) =~= cols);
        }
        while i < self.0.len()
            invariant
                self.wf(),
                cols == self.cols_view(),
                i <= self.0@.len(),
                total == count_matches_cols(cols, *prox_card),
                seen + count_matches_cols(cols.skip(i as int), *prox_card) == total,
                seen == 0 ==> found is Zero,
                seen == 1 ==> found is One,
                seen >= 2 ==> found is Two,
                found matches Ternary::One(a) ==> self.loc_is_match(a, *prox_card) && a.0.0 < i,
                found matches Ternary::Two(a, b) ==> self.loc_is_match(a, *prox_card)
                    && self.loc_is_match(b, *prox_card) && self.loc_before(a, b) && a.0.0 < i
                    && b.0.0 < i,
            decreases self.0@.len() - i,
        {
            proof {
                assert(cols[i as int] == self.0@[i as int].cards@);
                lemma_count_matches_cols_skip_step(cols, i as int, *prox_card);
            }
            let sub = self.0[i].find_prox_pair(prox_card);
            proof {
                seen = seen + count_matches(cols[i as int], *prox_card);
            }
            match sub {
                Ternary::Zero => {},
                Ternary::One(d0) => {
                    proof {
                        assert(sub@ =~= seq![d0]);
                        assert(sub@[0] == d0);
                    }
                    let loc0 = TableauCardLocation(TableauPosition(i), d0);
                    match found {
                        Ternary::Zero => {
                            found = Ternary::One(loc0);
                        },
                        Ternary::One(fst) => {
                            found = Ternary::Two(fst, loc0);
                        },
                        Ternary::Two(_, _) => {},
                    }
                },
                Ternary::Two(d0, d1) => {
                    proof {
                        assert(sub@ =~= seq![d0, d1]);
                        assert(sub@[0] == d0 && sub@[1] == d1);
                    }
                    let loc0 = TableauCardLocation(TableauPosition(i), d0);
                    let loc1 = TableauCardLocation(TableauPosition(i), d1);
                    match found {
                        Ternary::Zero => {
                            found = Ternary::Two(loc0, loc1);
                        },
                        Ternary::One(fst) => {
                            found = Ternary::Two(fst, loc0);
                        },
                        Ternary::Two(_, _) => {},
                    }
                },
            }
            i = i + 1;
        }
        proof {
            assert(cols.skip(cols.len() as int) =~= Seq::<Seq<Card>>::empty());
            match found {
                Ternary::Zero => {
                    assert(found@.len() == 0);
                },
                Ternary::One(a) => {
                    assert(found@ =~= seq![a]);
                },
                Ternary::Two(a, b) => {
                    assert(found@ =~= seq![a, b]);
                },
            }
        }
        found
    }
}

/// The length of the longest column of a row.
pub open spec fn max_col_len(cols: Seq<Seq<Card>>) -> int
    decreases cols.len(),
{
    if cols.len() == 0 {
        0
    } else if cols.last().len() >= max_col_len(cols.drop_last()) {
        cols.last().len() as int
    } else {
        max_col_len(cols.drop_last())
    }
}

/// Some listed location denotes the cell at column `pos`, height `row`
/// above the base.
pub open spec fn tableau_cell_listed(
    positions: Seq<TableauCardLocation>,
    pos: int,
    row: int,
) -> bool {
    exists|k: int|
        0 <= k < positions.len() && (#[trigger] positions[k]).matches_from_base_spec(pos, row)
}

/// The renderer's classification of one tableau cell.
pub open spec fn tableau_cell(
    cols: Seq<Seq<Card>>,
    positions: Seq<TableauCardLocation>,
    pos: int,
    row: int,
) -> ShownCard {
    if row < cols[pos].len() {
        if tableau_cell_listed(positions, pos, row) {
            ShownCard::Revealed(cols[pos][row])
        } else {
            ShownCard::Hidden
        }
    } else {
        ShownCard::Blank
    }
}

/// A row-major grid of cell classifications, row zero at the columns'
/// base, every column padded to the longest column's height.
pub struct TableauShownCards(pub Vec<Vec<ShownCard>>);

impl Tableau {
    /// The renderer's view of the tableau for a set of locations to
    /// reveal.
    pub fn show_cards(&self, positions: &Vec<TableauCardLocation>) -> (r: TableauShownCards)
        requires
            self.wf(),
        ensures
            r.0@.len() == max_col_len(self.cols_view()),
            forall|row: int|
                0 <= row < r.0@.len() ==> (#[trigger] r.0@[row]).len() == self.cols_view().len(),
            forall|row: int, pos: int|
                0 <= row < r.0@.len() && 0 <= pos < self.cols_view().len() ==> (
                #[trigger] r.0@[row][pos]) == tableau_cell(self.cols_view(), positions@, pos, row),
    {
        let rows = self.longest_column();
        let mut out: Vec<Vec<ShownCard>> = Vec::new();
        let mut row: usize = 0;
        while row < rows
            invariant
                self.wf(),
                rows == max_col_len(self.cols_view()),
                row <= rows,
                out@.len() == row,
                forall|r0: int|
                    0 <= r0 < out@.len() ==> (#[trigger] out@[r0]).len() == self.cols_view().len(),
                forall|r0: int, pos: int|
                    0 <= r0 < out@.len() && 0 <= pos < self.cols_view().len() ==> (
                    #[trigger] out@[r0][pos]) == tableau_cell(
                        self.cols_view(),
                        positions@,
                        pos,
                        r0,
                    ),
            decreases rows - row,
        {
            let mut line: Vec<ShownCard> = Vec::new();
            let mut pos: usize = 0;
            while pos < self.0.len()
                invariant
                    self.wf(),
                    pos <= self.0@.len(),
                    line@.len() == pos,
                    forall|p0: int|
                        0 <= p0 < line@.len() ==> (#[trigger] line@[p0]) == tableau_cell(
                            self.cols_view(),
                            positions@,
                            p0,
                            row as int,
                        ),
                decreases self.0@.len() - pos,
            {
                proof {
                    assert(self.cols_view()[pos as int] == self.0@[pos as int].cards@);
                }
                let cell = if row < self.0[pos].cards.len() {
                    if tableau_find_listed(positions, pos, row) {
                        ShownCard::Revealed(self.0[pos].cards[row])
                    } else {
                        ShownCard::Hidden
                    }
                } else {
                    ShownCard::Blank
                };
                line.push(cell);
                pos = pos + 1;
            }
            out.push(line);
            row = row + 1;
        }
        TableauShownCards(out)
    }

    /// The height of the tallest column.
    fn longest_column(&self) -> (r: usize)
        requires
            self.wf(),
        ensures
            r == max_col_len(self.cols_view()),
    {
        let mut best: usize = 0;
        let mut i: usize = 0;
        proof {
            assert(max_col_len(self.cols_view().take(0)) == 0);
        }
        while i < self.0.len()
            invariant
                self.wf(),
                i <= self.0@.len(),
                best == max_col_len(self.cols_view().take(i as int)),
            decreases self.0@.len() - i,
        {
            proof {
                assert(self.cols_view()[i as int] == self.0@[i as int].cards@);
                assert(self.cols_view().take(i + 1).drop_last() =~= self.cols_view().take(i as int));
                assert(self.cols_view().take(i + 1).last() == self.cols_view()[i as int]);
            }
            let len = self.0[i].cards.len();
            if len > best {
                best = len;
            }
            i = i + 1;
        }
        proof {
            assert(self.cols_view().take(self.cols_view().len() as int) =~= self.cols_view());
        }
        best
    }
}

/// Whether some listed location denotes the cell at column `pos`, height
/// `row`.
fn tableau_find_listed(positions: &Vec<TableauCardLocation>, pos: usize, row: usize) -> (r: bool)
    ensures
        r == tableau_cell_listed(positions@, pos as int, row as int),
{
    let mut k: usize = 0;
    while k < positions.len()
        invariant
            k <= positions@.len(),
            forall|j: int|
                0 <= j < k ==> !(#[trigger] positions@[j]).matches_from_base_spec(
                    pos as int,
                    row as int,
                ),
        decreases positions@.len() - k,
    {
        let l = positions[k];
        let hit = if l.1.column_size == 0 {
            false
        } else {
            l.matches_from_base(pos, row)
        };
        if hit {
            return true;
        }
        k = k + 1;
    }
    false
}

/// The exposed top cards of well-formed columns are well formed.
pub proof fn lemma_tableau_tops_wf(cols: Seq<Seq<Card>>)
    requires
        crate::counting::all_wf_cols(cols),
    ensures
        all_wf(tableau_tops(cols)),
    decreases cols.len(),
{
    if cols.len() > 0 {
        assert(crate::counting::all_wf_cols(cols.drop_last())) by {
            assert(forall|i: int|
                0 <= i < cols.drop_last().len() ==> cols.drop_last()[i] == cols[i]);
        }
        lemma_tableau_tops_wf(cols.drop_last());
        let front = tableau_tops(cols.drop_last());
        let tail: Seq<Card> = if cols.last().len() == 0 {
            Seq::empty()
        } else {
            seq![cols.last().last()]
        };
        assert forall|i: int|
            0 <= i < tableau_tops(cols).len() implies tableau_tops(cols)[i].wf() by {
            if i < front.len() {
                assert(tableau_tops(cols)[i] == front[i]);
            } else {
                assert(tableau_tops(cols)[i] == tail[i - front.len()]);
                assert(cols.last() == cols[cols.len() - 1]);
            }
        }
    }
}

impl Tableau {
    /// Lift the top card of one non-empty column.
    pub(crate) fn take_at(&mut self, i: usize) -> (r: Card)
        requires
            old(self).wf(),
            i < old(self).cols_view().len(),
            old(self).cols_view()[i as int].len() > 0,
        ensures
            final(self).wf(),
            r == old(self).cols_view()[i as int].last(),
            r.wf(),
            final(self).cols_view() =~= old(self).cols_view().update(
                i as int,
                old(self).cols_view()[i as int].drop_last(),
            ),
    {
        proof {
            assert(self.cols_view()[i as int] == self.0@[i as int].cards@);
            assert(self.0@[i as int].wf());
            assert(self.0@[i as int].cards@.last().wf());
        }
        let r = match self.0[i].pick_card() {
            Ok(c) => c,
            Err(_) => {
                proof {
                    assert(false);
                }
                Card(Rank(1), crate::card::Suit::Spades)
            },
        };
        proof {
            assert forall|k: int|
                0 <= k < self.cols_view().len() implies self.cols_view()[k] == old(
                self,
            ).cols_view().update(
                i as int,
                old(self).cols_view()[i as int].drop_last(),
            )[k] by {
                assert(self.cols_view()[k] == self.0@[k].cards@);
                assert(old(self).cols_view()[k] == old(self).0@[k].cards@);
            }
        }
        r
    }

    /// Put a card on top of one column, unconditionally.
    pub(crate) fn put_at(&mut self, i: usize, card: Card)
        requires
            old(self).wf(),
            i < old(self).cols_view().len(),
            card.wf(),
        ensures
            final(self).wf(),
            final(self).cols_view() =~= old(self).cols_view().update(
                i as int,
                old(self).cols_view()[i as int].push(card),
            ),
    {
        proof {
            assert(self.cols_view()[i as int] == self.0@[i as int].cards@);
        }
        self.0[i].place_card(card);
        proof {
            assert forall|k: int|
                0 <= k < self.cols_view().len() implies self.cols_view()[k] == old(
                self,
            ).cols_view().update(
                i as int,
                old(self).cols_view()[i as int].push(card),
            )[k] by {
                assert(self.cols_view()[k] == self.0@[k].cards@);
                assert(old(self).cols_view()[k] == old(self).0@[k].cards@);
            }
            assert forall|k: int| 0 <= k < self.0@.len() implies all_wf(
                (#[trigger] self.0@[k]).cards@,
            ) by {
                if k == i {
                    assert(forall|j: int|
                        0 <= j < self.0@[k].cards@.len() - 1 ==> self.0@[k].cards@[j] == old(
                            self,
                        ).0@[k].cards@[j]);
                }
            }
        }
    }
}

} // verus!

