//! The match engine: per-card states and the selection buffer, driven by
//! clicks on cards.
//!
//! A click on a card that shows `Unselected` or `Failure` is taken; others are
//! ignored. A taken click first settles a resolved pair still in the buffer
//! (`Failure` turns back to `Unselected`, `Success` to `Hidden`), then either
//! selects the card, or compares it with the one already selected: equal
//! values make both `Success`, different ones make both `Failure`.
use vstd::prelude::*;

verus! {

/// What a card shows.
#[derive(Clone, Copy, Debug, PartialEq, Eq, Structural)]
pub enum CardState {
    Unselected,
    Selected,
    Failure,
    Success,
    Hidden,
}

/// One card: its id (its index on the board), its symbol (an ASCII byte)
/// and its state.
#[derive(Clone, Copy, Debug, PartialEq, Eq, Structural)]
pub struct Card {
    pub id: usize,
    pub value: u8,
    pub state: CardState,
}

/// The state of one game: the cards, the buffer of cards in the current
/// comparison (by id, oldest first), and how many cards are not matched yet.
pub struct MatchEngine {
    cards: Vec<Card>,
    selected: Vec<usize>,
    cards_left: usize,
}

/// The engine as a mathematical value.
pub ghost struct EngineModel {
    pub cards: Seq<Card>,
    pub selected: Seq<usize>,
    pub cards_left: nat,
}

/// A click on a card in this state is taken.
pub open spec fn clickable(s: CardState) -> bool {
    s == CardState::Unselected || s == CardState::Failure
}

/// A card in this state is not matched yet.
pub open spec fn unmatched(s: CardState) -> bool {
    !(s == CardState::Success || s == CardState::Hidden)
}

/// The state a card of a resolved pair takes when the pair is cleared.
pub open spec fn settled(s: CardState) -> CardState {
    match s {
        CardState::Failure => CardState::Unselected,
        CardState::Success => CardState::Hidden,
        _ => s,
    }
}

/// Number of cards not matched yet.
pub open spec fn unmatched_count(cards: Seq<Card>) -> nat
    decreases cards.len(),
{
    if cards.len() == 0 {
        0
    } else {
        unmatched_count(cards.drop_last()) + if unmatched(cards.last().state) {
            1nat
        } else {
            0nat
        }
    }
}

/// `cards` with the state of card `i` set to `s`.
pub open spec fn with_state(cards: Seq<Card>, i: int, s: CardState) -> Seq<Card> {
    cards.update(i, Card { state: s, ..cards[i] })
}

/// A fresh game on `values`: card `i` shows `values[i]`, nothing selected.
pub open spec fn initial_model(values: Seq<u8>) -> EngineModel {
    EngineModel {
        cards: Seq::new(
            values.len(),
            |i: int| Card { id: i as usize, value: values[i], state: CardState::Unselected },
        ),
        selected: Seq::empty(),
        cards_left: values.len(),
    }
}

/// Clears a resolved pair from the buffer, settling its two cards; a buffer
/// of fewer than two cards is left as it is.
pub open spec fn settle_model(m: EngineModel) -> EngineModel {
    if m.selected.len() >= 2 {
        let a = m.selected[0] as int;
        let b = m.selected[1] as int;
        let c1 = with_state(m.cards, a, settled(m.cards[a].state));
        EngineModel {
            cards: with_state(c1, b, settled(c1[b].state)),
            selected: Seq::empty(),
            cards_left: m.cards_left,
        }
    } else {
        m
    }
}

/// The engine after a click on card `id`.
pub open spec fn click_model(m: EngineModel, id: usize) -> EngineModel {
    if id >= m.cards.len() || !clickable(m.cards[id as int].state) {
        m
    } else {
        let s = settle_model(m);
        if s.selected.len() == 0 {
            EngineModel {
                cards: with_state(s.cards, id as int, CardState::Selected),
                selected: s.selected.push(id),
                ..s
            }
        } else {
            let other = s.selected.last();
            if other == id {
                s
            } else {
                let matched = s.cards[other as int].value == s.cards[id as int].value;
                let state = if matched {
                    CardState::Success
                } else {
                    CardState::Failure
                };
                EngineModel {
                    cards: with_state(
                        with_state(s.cards, other as int, state),
                        id as int,
                        state,
                    ),
                    selected: s.selected.push(id),
                    cards_left: if matched {
                        (s.cards_left - 2) as nat
                    } else {
                        s.cards_left
                    },
                }
            }
        }
    }
}

impl EngineModel {
    /// Ids are indices, the buffer holds at most a pair of distinct cards
    /// (a lone one is `Selected`), and the count of cards left is exact.
    pub open spec fn wf(self) -> bool {
        &&& forall|i: int| 0 <= i < self.cards.len() ==> (#[trigger] self.cards[i]).id == i
        &&& self.selected.len() <= 2
        &&& forall|j: int|
            0 <= j < self.selected.len() ==> #[trigger] self.selected[j] < self.cards.len()
        &&& self.selected.len() == 1 ==> self.cards[self.selected[0] as int].state
            == CardState::Selected
        &&& self.selected.len() == 2 ==> self.selected[0] != self.selected[1]
        &&& self.cards_left == unmatched_count(self.cards)
    }
}

impl View for MatchEngine {
    type V = EngineModel;

    closed spec fn view(&self) -> EngineModel {
        EngineModel {
            cards: self.cards@,
            selected: self.selected@,
            cards_left: self.cards_left as nat,
        }
    }
}

proof fn lemma_unmatched_count_update(cards: Seq<Card>, i: int, c: Card)
    requires
        0 <= i < cards.len(),
    ensures
        unmatched_count(cards.update(i, c)) + (if unmatched(cards[i].state) {
            1int
        } else {
            0int
        }) == unmatched_count(cards) + (if unmatched(c.state) {
            1int
        } else {
            0int
        }),
    decreases cards.len(),
{
    let u = cards.update(i, c);
    if i == cards.len() - 1 {
        assert(u.drop_last() =~= cards.drop_last());
    } else {
        assert(u.drop_last() =~= cards.drop_last().update(i, c));
        lemma_unmatched_count_update(cards.drop_last(), i, c);
    }
}

proof fn lemma_unmatched_count_all(cards: Seq<Card>)
    requires
        forall|i: int| 0 <= i < cards.len() ==> unmatched(#[trigger] cards[i].state),
    ensures
        unmatched_count(cards) == cards.len(),
    decreases cards.len(),
{
    if cards.len() > 0 {
        lemma_unmatched_count_all(cards.drop_last());
    }
}

/// Card `i` with id `i`, showing `values[i]`, `Unselected`.
fn initial_cards(values: &Vec<u8>) -> (r: Vec<Card>)
    ensures
        r@ == initial_model(values@).cards,
{
    let mut cards: Vec<Card> = Vec::new();
    let mut i: usize = 0;
    while i < values.len()
        invariant
            i <= values.len(),
            cards@.len() == i,
            forall|j: int|
                0 <= j < i ==> (#[trigger] cards@[j]).id == j && cards@[j].value == values@[j]
                    && cards@[j].state == CardState::Unselected,
        decreases values.len() - i,
    {
        let v: u8 = values[i];
        let card = Card { id: i, value: v, state: CardState::Unselected };
        cards.push(card);
        i = i + 1;
    }
    assert(cards@ =~= initial_model(values@).cards);
    cards
}

/// Clicks keep the engine well formed: ids stay indices, the buffer stays a
/// lone selection or a pair, and the count of cards left stays exact.
pub proof fn lemma_click_keeps_wf(m: EngineModel, id: usize)
    requires
        m.wf(),
    ensures
        click_model(m, id).wf(),
{
    if id < m.cards.len() && clickable(m.cards[id as int].state) {
        let s = settle_model(m);
        if m.selected.len() >= 2 {
            let a = m.selected[0] as int;
            let b = m.selected[1] as int;
            let c1 = with_state(m.cards, a, settled(m.cards[a].state));
            lemma_unmatched_count_update(
                m.cards,
                a,
                Card { state: settled(m.cards[a].state), ..m.cards[a] },
            );
            lemma_unmatched_count_update(c1, b, Card { state: settled(c1[b].state), ..c1[b] });
        }
        assert(s.wf());
        if s.selected.len() == 0 {
            lemma_unmatched_count_update(
                s.cards,
                id as int,
                Card { state: CardState::Selected, ..s.cards[id as int] },
            );
        } else {
            let other = s.selected.last();
            if other != id {
                let matched = s.cards[other as int].value == s.cards[id as int].value;
                let state = if matched {
                    CardState::Success
                } else {
                    CardState::Failure
                };
                lemma_unmatched_count_update(
                    s.cards,
                    other as int,
                    Card { state, ..s.cards[other as int] },
                );
                let c1 = with_state(s.cards, other as int, state);
                lemma_unmatched_count_update(c1, id as int, Card { state, ..c1[id as int] });
            }
        }
    }
}

/// A second card picked after a first: with the buffer holding no lone
/// selection, clicking two different cards that may be clicked leaves both
/// `Success` and two fewer cards left when their values are equal, and both
/// `Failure` with the count unchanged when they differ.
pub proof fn lemma_two_clicks_resolve(m: EngineModel, a: usize, b: usize)
    requires
        m.wf(),
        m.selected.len() != 1,
        a < m.cards.len(),
        b < m.cards.len(),
        a != b,
        clickable(m.cards[a as int].state),
        clickable(m.cards[b as int].state),
    ensures
        ({
            let r = click_model(click_model(m, a), b);
            let same = m.cards[a as int].value == m.cards[b as int].value;
            let state = if same {
                CardState::Success
            } else {
                CardState::Failure
            };
            &&& r.cards[a as int].state == state
            &&& r.cards[b as int].state == state
            &&& r.cards_left == if same {
                m.cards_left - 2
            } else {
                m.cards_left as int
            }
            &&& r.selected == seq![a, b]
        }),
{
    let s = settle_model(m);
    let m1 = click_model(m, a);
    assert(s.cards[b as int].value == m.cards[b as int].value);
    assert(s.cards[a as int].value == m.cards[a as int].value);
    assert(clickable(m1.cards[b as int].state));
    lemma_click_keeps_wf(m, a);
    lemma_click_keeps_wf(m1, b);
    assert(m1.cards_left == m.cards_left);
    let c = m1.cards;
    let c1 = with_state(c, a as int, CardState::Hidden);
    lemma_unmatched_count_update(c, a as int, Card { state: CardState::Hidden, ..c[a as int] });
    lemma_unmatched_count_update(c1, b as int, Card { state: CardState::Hidden, ..c1[b as int] });
    assert(m1.cards_left >= 2);
    assert(m1.selected =~= seq![a]);
    assert(click_model(m1, b).selected =~= seq![a, b]);
}

/// A resolved pair stays as it is until a click is taken: a click on a card
/// that may not be clicked changes nothing.
pub proof fn lemma_resolved_pair_waits(m: EngineModel, id: usize)
    requires
        m.wf(),
        m.selected.len() == 2,
        id < m.cards.len() ==> !clickable(m.cards[id as int].state),
    ensures
        click_model(m, id) == m,
{
}

/// The next click that is taken clears a resolved pair: each of its cards
/// other than the one clicked is settled, the clicked card is selected, and
/// the buffer holds that card alone.
pub proof fn lemma_next_click_clears_pair(m: EngineModel, id: usize)
    requires
        m.wf(),
        m.selected.len() == 2,
        id < m.cards.len(),
        clickable(m.cards[id as int].state),
    ensures
        ({
            let r = click_model(m, id);
            &&& r.selected == seq![id]
            &&& r.cards[id as int].state == CardState::Selected
            &&& r.cards_left == m.cards_left
            &&& forall|j: int|
                0 <= j < 2 && m.selected[j] != id ==> r.cards[m.selected[j] as int].state
                    == settled(m.cards[m.selected[j] as int].state)
        }),
{
    assert(click_model(m, id).selected =~= seq![id]);
}

impl MatchEngine {
    pub closed spec fn wf(&self) -> bool {
        self@.wf()
    }

    /// A fresh game on the given card values, in board order: card `i` has id
    /// `i` and shows `values[i]`; every card is `Unselected`.
    pub fn new(values: &Vec<u8>) -> (r: MatchEngine)
        ensures
            r.wf(),
            r@ == initial_model(values@),
    {
        let cards = initial_cards(values);
        let ghost m = initial_model(values@);
        proof {
            assert forall|i: int| 0 <= i < m.cards.len() implies unmatched(
                #[trigger] m.cards[i].state,
            ) by {}
            lemma_unmatched_count_all(m.cards);
        }
        MatchEngine { cards, selected: Vec::new(), cards_left: values.len() }
    }

    fn set_state(&mut self, i: usize, s: CardState)
        requires
            i < old(self).cards.len(),
        ensures
            final(self).cards@ == with_state(old(self).cards@, i as int, s),
            final(self).selected == old(self).selected,
            final(self).cards_left == old(self).cards_left,
    {
        let mut c = self.cards[i];
        c.state = s;
        self.cards.set(i, c);
    }

    fn settled_state(s: CardState) -> (r: CardState)
        ensures
            r == settled(s),
    {
        match s {
            CardState::Failure => CardState::Unselected,
            CardState::Success => CardState::Hidden,
            _ => s,
        }
    }

    /// Clears a resolved pair from the buffer.
    fn settle(&mut self)
        requires
            old(self).wf(),
        ensures
            final(self)@ == settle_model(old(self)@),
            final(self).wf(),
            final(self).selected.len() <= 1,
    {
        if self.selected.len() >= 2 {
            let ghost m = self@;
            let a = self.selected[0];
            let b = self.selected[1];
            let sa = Self::settled_state(self.cards[a].state);
            proof {
                lemma_unmatched_count_update(
                    self.cards@,
                    a as int,
                    Card { state: sa, ..self.cards@[a as int] },
                );
            }
            self.set_state(a, sa);
            let sb = Self::settled_state(self.cards[b].state);
            proof {
                lemma_unmatched_count_update(
                    self.cards@,
                    b as int,
                    Card { state: sb, ..self.cards@[b as int] },
                );
            }
            self.set_state(b, sb);
            self.selected.clear();
            assert(self@.selected =~= settle_model(m).selected);
        }
    }

    /// A click on card `id`; see the module documentation.
    pub fn click(&mut self, id: usize)
        requires
            old(self).wf(),
        ensures
            final(self).wf(),
            final(self)@ == click_model(old(self)@, id),
            final(self)@.cards.len() == old(self)@.cards.len(),
    {
        if id >= self.cards.len() {
            return;
        }
        let st = self.cards[id].state;
        if !(st == CardState::Unselected || st == CardState::Failure) {
            return;
        }
        self.settle();
        if self.selected.len() == 0 {
            proof {
                lemma_unmatched_count_update(
                    self.cards@,
                    id as int,
                    Card { state: CardState::Selected, ..self.cards@[id as int] },
                );
            }
            self.set_state(id, CardState::Selected);
            self.selected.push(id);
        } else {
            let other = self.selected[self.selected.len() - 1];
            if other != id {
                let matched = self.cards[other].value == self.cards[id].value;
                let state = if matched {
                    CardState::Success
                } else {
                    CardState::Failure
                };
                proof {
                    let c0 = self.cards@;
                    lemma_unmatched_count_update(
                        c0,
                        other as int,
                        Card { state, ..c0[other as int] },
                    );
                    let c1 = with_state(c0, other as int, state);
                    lemma_unmatched_count_update(c1, id as int, Card { state, ..c1[id as int] });
                }
                if matched {
                    self.cards_left = self.cards_left - 2;
                }
                self.set_state(other, state);
                self.set_state(id, state);
                self.selected.push(id);
            }
        }
    }

    /// Number of cards on the board.
    pub fn len(&self) -> (r: usize)
        ensures
            r == self@.cards.len(),
    {
        self.cards.len()
    }

    /// The card with id `id`.
    pub fn card(&self, id: usize) -> (r: Card)
        requires
            id < self@.cards.len(),
        ensures
            r == self@.cards[id as int],
    {
        self.cards[id]
    }

    /// Number of cards not matched yet.
    pub fn cards_left(&self) -> (r: usize)
        ensures
            r == self@.cards_left,
    {
        self.cards_left
    }

    /// Ids of the cards in the current comparison, oldest first.
    pub fn selected(&self) -> (r: Vec<usize>)
        ensures
            r@ == self@.selected,
    {
        self.selected.clone()
    }
}

} // verus!
