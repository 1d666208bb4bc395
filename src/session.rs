//! A game session: the deck, the match engine and the layout inputs of one
//! game, with restart and the delayed win flag.
//!
//! When the last pair is matched, the click hands back a `WinTimer`: whoever
//! runs the session waits `delay_ms` and then calls `fire_win_timer` with
//! its epoch. Each restart moves to a new epoch, so a timer of an earlier
//! game no longer sets the win flag.
use vstd::prelude::*;
use crate::deck::{build_deck, pair_values};
use crate::engine::{click_model, initial_model, EngineModel, MatchEngine};
use crate::layout::{
    card_width_half_px, compute_layout, is_scan_result, BoardSize, CardRatio, Layout,
};

verus! {

/// Time between the last match and the win flag, in milliseconds.
pub const WIN_DELAY_MS: u64 = 1000;

/// Gap between neighbouring cards, in pixels.
pub const GAP_PX: u32 = 20;

/// Card width, in half pixels, while the board has not been measured.
pub const UNMEASURED_CARD_WIDTH_HALF_PX: u64 = 200;

/// Aspect ratio of a card: about the square root of two, as paper sheets.
pub open spec fn card_ratio_spec() -> CardRatio {
    CardRatio { width: 14142, height: 10000 }
}

pub fn card_ratio() -> (r: CardRatio)
    ensures
        r == card_ratio_spec(),
        r.valid(),
{
    CardRatio { width: 14142, height: 10000 }
}

/// A request to set the win flag of the game of `epoch` after `delay_ms`.
#[derive(Clone, Copy, Debug, PartialEq, Eq, Structural)]
pub struct WinTimer {
    pub epoch: u64,
    pub delay_ms: u64,
}

pub struct GameSession {
    number_of_pairs: u8,
    engine: MatchEngine,
    epoch: u64,
    win: bool,
    board: Option<BoardSize>,
}

/// The session as a mathematical value.
pub ghost struct SessionModel {
    pub number_of_pairs: nat,
    pub engine: EngineModel,
    pub epoch: u64,
    pub win: bool,
    pub board: Option<BoardSize>,
}

/// `e` is a new game of `n` pairs: the values of a shuffled deck of `n`
/// pairs, every card `Unselected`, nothing selected, every card left.
pub open spec fn fresh_game(e: EngineModel, n: nat) -> bool {
    exists|values: Seq<u8>|
        #![trigger initial_model(values)]
        e == initial_model(values) && values.len() == 2 * n && values.to_multiset()
            == pair_values(n).to_multiset()
}

/// The timer that a click hands back: one when it matched the last pair.
pub open spec fn win_timer_after(
    left_before: nat,
    left_after: nat,
    epoch: u64,
) -> Option<WinTimer> {
    if left_before > 0 && left_after == 0 {
        Some(WinTimer { epoch, delay_ms: WIN_DELAY_MS })
    } else {
        None
    }
}

/// The win flag after a timer of `timer_epoch` fires in the game of `epoch`.
pub open spec fn win_after_timer(win: bool, epoch: u64, timer_epoch: u64) -> bool {
    win || timer_epoch == epoch
}

/// The epoch after a restart.
pub open spec fn next_epoch(epoch: u64) -> u64 {
    if epoch == u64::MAX {
        0
    } else {
        (epoch + 1) as u64
    }
}

/// The click that matches the last pair hands back a timer of the current
/// epoch that runs one second; when it fires in that same game, the win flag
/// is set.
pub proof fn lemma_last_match_wins_after_delay(m: EngineModel, id: usize, epoch: u64, win: bool)
    requires
        m.wf(),
        m.cards_left > 0,
        click_model(m, id).cards_left == 0,
    ensures
        win_timer_after(m.cards_left, click_model(m, id).cards_left, epoch) == Some(
            WinTimer { epoch, delay_ms: 1000 },
        ),
        win_after_timer(win, epoch, epoch),
{
}

/// Until the game is won the win flag stays clear: a click that leaves cards
/// unmatched hands back no timer.
pub proof fn lemma_no_timer_before_last_match(m: EngineModel, id: usize, epoch: u64)
    requires
        click_model(m, id).cards_left > 0,
    ensures
        win_timer_after(m.cards_left, click_model(m, id).cards_left, epoch).is_none(),
{
}

/// A restart voids every timer of the game before it: one that fires after
/// the restart leaves the new game's win flag clear, while a timer of the new
/// game still sets it.
pub proof fn lemma_restart_voids_stale_timer(epoch: u64)
    ensures
        !win_after_timer(false, next_epoch(epoch), epoch),
        win_after_timer(false, next_epoch(epoch), next_epoch(epoch)),
{
}

/// A board of no cards is never won: no click on it hands back a timer.
pub proof fn lemma_empty_board_never_wins(m: EngineModel, id: usize, epoch: u64)
    requires
        m.wf(),
        m.cards.len() == 0,
    ensures
        win_timer_after(m.cards_left, click_model(m, id).cards_left, epoch).is_none(),
{
}

impl View for GameSession {
    type V = SessionModel;

    closed spec fn view(&self) -> SessionModel {
        SessionModel {
            number_of_pairs: self.number_of_pairs as nat,
            engine: self.engine@,
            epoch: self.epoch,
            win: self.win,
            board: self.board,
        }
    }
}

impl GameSession {
    pub closed spec fn wf(&self) -> bool {
        &&& self.engine.wf()
        &&& self.engine@.cards.len() == 2 * self.number_of_pairs
    }

    fn fresh_engine(number_of_pairs: u8) -> (r: MatchEngine)
        ensures
            r.wf(),
            fresh_game(r@, number_of_pairs as nat),
            r@.cards.len() == 2 * number_of_pairs,
    {
        let deck = build_deck(number_of_pairs as usize);
        let engine = MatchEngine::new(&deck);
        assert(engine@ == initial_model(deck@));
        engine
    }

    /// A new game of `number_of_pairs` pairs, in epoch zero, with the board
    /// not measured yet.
    pub fn new(number_of_pairs: u8) -> (r: GameSession)
        ensures
            r.wf(),
            fresh_game(r@.engine, number_of_pairs as nat),
            r@.number_of_pairs == number_of_pairs,
            r@.epoch == 0,
            !r@.win,
            r@.board.is_none(),
    {
        GameSession {
            number_of_pairs,
            engine: Self::fresh_engine(number_of_pairs),
            epoch: 0,
            win: false,
            board: None,
        }
    }

    /// A click on card `id`. Hands back the win timer to start when this
    /// click matched the last pair.
    pub fn click(&mut self, id: usize) -> (r: Option<WinTimer>)
        requires
            old(self).wf(),
        ensures
            final(self).wf(),
            final(self)@.engine == click_model(old(self)@.engine, id),
            r == win_timer_after(
                old(self)@.engine.cards_left,
                final(self)@.engine.cards_left,
                old(self)@.epoch,
            ),
            final(self)@.epoch == old(self)@.epoch,
            final(self)@.win == old(self)@.win,
            final(self)@.board == old(self)@.board,
            final(self)@.number_of_pairs == old(self)@.number_of_pairs,
    {
        let before = self.engine.cards_left();
        self.engine.click(id);
        if before > 0 && self.engine.cards_left() == 0 {
            Some(WinTimer { epoch: self.epoch, delay_ms: WIN_DELAY_MS })
        } else {
            None
        }
    }

    /// A win timer of the game of `epoch` has run out: the win flag is set
    /// when that game is still the current one.
    pub fn fire_win_timer(&mut self, epoch: u64)
        ensures
            final(self)@.win == win_after_timer(old(self)@.win, old(self)@.epoch, epoch),
            final(self)@.engine == old(self)@.engine,
            final(self)@.epoch == old(self)@.epoch,
            final(self)@.board == old(self)@.board,
            final(self)@.number_of_pairs == old(self)@.number_of_pairs,
            final(self).wf() == old(self).wf(),
    {
        if epoch == self.epoch {
            self.win = true;
        }
    }

    /// A new game of as many pairs, in the next epoch, with the win flag
    /// cleared; the board's size is kept.
    pub fn restart(&mut self)
        ensures
            final(self).wf(),
            fresh_game(final(self)@.engine, old(self)@.number_of_pairs),
            final(self)@.epoch == next_epoch(old(self)@.epoch),
            !final(self)@.win,
            final(self)@.board == old(self)@.board,
            final(self)@.number_of_pairs == old(self)@.number_of_pairs,
    {
        self.engine = Self::fresh_engine(self.number_of_pairs);
        self.win = false;
        self.epoch = if self.epoch == u64::MAX {
            0
        } else {
            self.epoch + 1
        };
    }

    /// The board has been measured, or resized.
    pub fn resize(&mut self, board: BoardSize)
        ensures
            final(self)@.board == Some(board),
            final(self)@.engine == old(self)@.engine,
            final(self)@.epoch == old(self)@.epoch,
            final(self)@.win == old(self)@.win,
            final(self)@.number_of_pairs == old(self)@.number_of_pairs,
            final(self).wf() == old(self).wf(),
    {
        self.board = Some(board);
    }

    /// The layout of the current cards on the board as last measured. Before
    /// a measurement, or on a board of no height, it is one column of cards
    /// 100 pixels wide.
    pub fn layout(&self) -> (r: Layout)
        requires
            self.wf(),
        ensures
            ({
                let n = self@.engine.cards.len();
                match self@.board {
                    Some(b) if b.height > 0 => {
                        &&& r.columns >= 1
                        &&& n == 0 ==> r.columns == 1
                        &&& n > 0 ==> is_scan_result(card_ratio_spec(), n, b, r.columns as nat)
                        &&& r.card_width_half_px == card_width_half_px(
                            card_ratio_spec(),
                            n,
                            b,
                            GAP_PX as nat,
                            r.columns as nat,
                        )
                    },
                    _ => r == (Layout {
                        columns: 1,
                        card_width_half_px: UNMEASURED_CARD_WIDTH_HALF_PX,
                    }),
                }
            }),
    {
        match self.board {
            Some(b) => {
                if b.height > 0 {
                    compute_layout(card_ratio(), self.engine.len() as u16, b, GAP_PX)
                } else {
                    Layout { columns: 1, card_width_half_px: UNMEASURED_CARD_WIDTH_HALF_PX }
                }
            },
            None => Layout { columns: 1, card_width_half_px: UNMEASURED_CARD_WIDTH_HALF_PX },
        }
    }

    /// The match engine of the current game.
    pub fn engine(&self) -> (r: &MatchEngine)
        ensures
            r@ == self@.engine,
    {
        &self.engine
    }

    /// Whether the current game has been won.
    pub fn win(&self) -> (r: bool)
        ensures
            r == self@.win,
    {
        self.win
    }

    /// The current epoch.
    pub fn epoch(&self) -> (r: u64)
        ensures
            r == self@.epoch,
    {
        self.epoch
    }

    /// The board's size as last measured.
    pub fn board(&self) -> (r: Option<BoardSize>)
        ensures
            r == self@.board,
    {
        self.board
    }

    /// Number of pairs of each game of this session.
    pub fn number_of_pairs(&self) -> (r: u8)
        ensures
            r == self@.number_of_pairs,
    {
        self.number_of_pairs
    }
}

} // verus!
