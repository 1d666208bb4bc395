use memory_game::deck::{build_deck, symbol, unshuffled_values, ALPHABET_LEN};
use memory_game::engine::{CardState, MatchEngine};
use memory_game::layout::{card_width, compute_layout, num_columns, BoardSize, CardRatio, Layout};
use memory_game::session::{card_ratio, GameSession, WinTimer, GAP_PX, WIN_DELAY_MS};

fn counts(values: &[u8]) -> std::collections::BTreeMap<u8, usize> {
    let mut m = std::collections::BTreeMap::new();
    for v in values {
        *m.entry(*v).or_insert(0) += 1;
    }
    m
}

fn sorted(values: &[u8]) -> Vec<u8> {
    let mut v = values.to_vec();
    v.sort();
    v
}

#[test]
fn alphabet_symbols() {
    let s: Vec<u8> = (0..ALPHABET_LEN).map(symbol).collect();
    assert_eq!(s, b"ABCDEF".to_vec());
}

#[test]
fn unshuffled_three_pairs() {
    assert_eq!(unshuffled_values(3), b"AABBCC".to_vec());
}

#[test]
fn unshuffled_cycles_alphabet() {
    assert_eq!(unshuffled_values(8), b"AABBCCDDEEFFAABB".to_vec());
}

#[test]
fn deck_of_zero_pairs_is_empty() {
    assert!(build_deck(0).is_empty());
}

#[test]
fn deck_values_come_in_pairs() {
    for n in 0..=40usize {
        let deck = build_deck(n);
        assert_eq!(deck.len(), 2 * n);
        for (_, c) in counts(&deck) {
            assert_eq!(c % 2, 0);
            if n <= ALPHABET_LEN {
                assert_eq!(c, 2);
            }
        }
    }
}

#[test]
fn deck_is_permutation_of_unshuffled() {
    for n in [1usize, 5, 6, 7, 13, 100] {
        assert_eq!(sorted(&build_deck(n)), sorted(&unshuffled_values(n)));
    }
}

#[test]
fn deck_is_shuffled() {
    let plain = unshuffled_values(6);
    let moved = (0..50).any(|_| build_deck(6) != plain);
    assert!(moved);
}

fn engine_of(values: &[u8]) -> MatchEngine {
    MatchEngine::new(&values.to_vec())
}

fn states(e: &MatchEngine) -> Vec<CardState> {
    (0..e.len()).map(|i| e.card(i).state).collect()
}

#[test]
fn new_engine_is_fresh() {
    let e = engine_of(b"ABAB");
    assert_eq!(e.len(), 4);
    assert_eq!(e.cards_left(), 4);
    assert!(e.selected().is_empty());
    for i in 0..4 {
        let c = e.card(i);
        assert_eq!(c.id, i);
        assert_eq!(c.state, CardState::Unselected);
    }
    assert_eq!(e.card(1).value, b'B');
}

#[test]
fn equal_pair_succeeds() {
    let mut e = engine_of(b"ABAB");
    e.click(0);
    assert_eq!(e.card(0).state, CardState::Selected);
    assert_eq!(e.selected(), vec![0]);
    e.click(2);
    assert_eq!(e.card(0).state, CardState::Success);
    assert_eq!(e.card(2).state, CardState::Success);
    assert_eq!(e.cards_left(), 2);
    assert_eq!(e.selected(), vec![0, 2]);
}

#[test]
fn different_pair_fails() {
    let mut e = engine_of(b"ABAB");
    e.click(0);
    e.click(1);
    assert_eq!(e.card(0).state, CardState::Failure);
    assert_eq!(e.card(1).state, CardState::Failure);
    assert_eq!(e.cards_left(), 4);
}

#[test]
fn same_card_twice_is_ignored() {
    let mut e = engine_of(b"ABAB");
    e.click(1);
    e.click(1);
    assert_eq!(states(&e), vec![CardState::Unselected, CardState::Selected, CardState::Unselected, CardState::Unselected]);
    assert_eq!(e.selected(), vec![1]);
    assert_eq!(e.cards_left(), 4);
}

#[test]
fn click_out_of_range_is_ignored() {
    let mut e = engine_of(b"AA");
    e.click(7);
    assert_eq!(states(&e), vec![CardState::Unselected, CardState::Unselected]);
    assert!(e.selected().is_empty());
}

#[test]
fn resolved_pair_waits_for_third_click() {
    let mut e = engine_of(b"ABAB");
    e.click(0);
    e.click(2);
    // clicks on the matched cards are not taken
    e.click(0);
    e.click(2);
    assert_eq!(e.card(0).state, CardState::Success);
    assert_eq!(e.selected(), vec![0, 2]);
    // the third card clears the pair
    e.click(1);
    assert_eq!(states(&e), vec![CardState::Hidden, CardState::Selected, CardState::Hidden, CardState::Unselected]);
    assert_eq!(e.selected(), vec![1]);
    assert_eq!(e.cards_left(), 2);
}

#[test]
fn failed_pair_can_be_clicked_again() {
    let mut e = engine_of(b"ABAB");
    e.click(0);
    e.click(1);
    assert_eq!(e.selected(), vec![0, 1]);
    e.click(1);
    assert_eq!(states(&e), vec![CardState::Unselected, CardState::Selected, CardState::Unselected, CardState::Unselected]);
    assert_eq!(e.selected(), vec![1]);
    e.click(3);
    assert_eq!(e.card(1).state, CardState::Success);
    assert_eq!(e.card(3).state, CardState::Success);
    assert_eq!(e.cards_left(), 2);
}

#[test]
fn hidden_cards_are_ignored() {
    let mut e = engine_of(b"AABB");
    e.click(0);
    e.click(1);
    e.click(2);
    assert_eq!(e.card(0).state, CardState::Hidden);
    e.click(0);
    assert_eq!(e.card(0).state, CardState::Hidden);
    assert_eq!(e.selected(), vec![2]);
}

const CARD: CardRatio = CardRatio { width: 14142, height: 10000 };

fn board(w: u32, h: u32) -> BoardSize {
    BoardSize { width: w, height: h }
}

#[test]
fn six_cards_on_square_board() {
    assert_eq!(num_columns(CARD, 6, board(1, 1)), 2);
}

#[test]
fn no_cards_take_one_column() {
    assert_eq!(num_columns(CARD, 0, board(800, 600)), 1);
    assert_eq!(compute_layout(CARD, 0, board(800, 600), 20).columns, 1);
}

// |W/H - c*cw/(rows*ch)| as an exact fraction (numerator, denominator)
fn distance(card: CardRatio, n: u64, b: BoardSize, c: u64) -> (i128, i128) {
    let rows = ((n + c - 1) / c) as i128;
    let num = b.width as i128 * rows * card.height as i128 - c as i128 * card.width as i128 * b.height as i128;
    (num.abs(), b.height as i128 * rows * card.height as i128)
}

fn less(a: (i128, i128), b: (i128, i128)) -> bool {
    a.0 * b.1 < b.0 * a.1
}

#[test]
fn scan_agrees_with_brute_force() {
    for (bw, bh) in [(1u32, 5u32), (1, 1), (5, 1)] {
        let b = board(bw, bh);
        for n in 1..=30u64 {
            let r = num_columns(CARD, n as u16, b);
            // the first minimiser over a range that holds every candidate
            let mut best = 1u64;
            for c in 2..=(n + 64) {
                if less(distance(CARD, n, b, c), distance(CARD, n, b, best)) {
                    best = c;
                }
            }
            assert_eq!(r, best, "n = {}, board {}:{}", n, bw, bh);
            // and no column count up to the card count fits better
            for c in 1..=n {
                assert!(!less(distance(CARD, n, b, c), distance(CARD, n, b, r)));
            }
        }
    }
}

#[test]
fn scan_may_exceed_card_count_on_wide_board() {
    assert_eq!(num_columns(CARD, 1, board(5, 1)), 4);
}

#[test]
fn narrow_board_falls_back_to_height() {
    let w = card_width(CARD, 6, board(800, 600), 20, 2);
    assert_eq!(w, 527);
    // the grid's height stays within the board's
    let rows: u64 = 3;
    let height_scaled = rows * w * 10000 + 2 * 14142 * 20 * (rows - 1);
    assert!(height_scaled <= 2 * 14142 * 600);
}

#[test]
fn wide_enough_board_fits_width() {
    assert_eq!(card_width(CARD, 2, board(1000, 2000), 20, 2), 980);
}

#[test]
fn width_rounds_down_to_half_pixel() {
    // (101 - 20) / 2 = 40.5 pixels
    assert_eq!(card_width(CARD, 2, board(101, 2000), 20, 2), 81);
    // (102 - 40) / 3 = 20.67 pixels, down to 20.5
    assert_eq!(card_width(CARD, 3, board(102, 2000), 20, 3), 41);
}

#[test]
fn layout_of_six_cards() {
    assert_eq!(
        compute_layout(CARD, 6, board(800, 600), 20),
        Layout { columns: 2, card_width_half_px: 527 }
    );
}

fn play_to_win(s: &mut GameSession) -> Option<WinTimer> {
    let n = s.engine().len();
    let mut last = None;
    for i in 0..n {
        for j in (i + 1)..n {
            let (a, b) = (s.engine().card(i), s.engine().card(j));
            if a.value == b.value && a.state == CardState::Unselected && b.state == CardState::Unselected {
                assert!(last.is_none());
                assert!(s.click(i).is_none());
                last = s.click(j);
                break;
            }
        }
    }
    last
}

#[test]
fn new_session_is_fresh() {
    let s = GameSession::new(3);
    assert_eq!(s.engine().len(), 6);
    assert_eq!(s.engine().cards_left(), 6);
    assert_eq!(s.epoch(), 0);
    assert!(!s.win());
    assert_eq!(s.board(), None);
    assert_eq!(s.number_of_pairs(), 3);
}

#[test]
fn win_comes_one_second_after_last_match() {
    let mut s = GameSession::new(4);
    let timer = play_to_win(&mut s).expect("the last match starts the timer");
    assert_eq!(timer, WinTimer { epoch: 0, delay_ms: 1000 });
    assert_eq!(WIN_DELAY_MS, 1000);
    assert_eq!(s.engine().cards_left(), 0);
    // simulated clock: the match happened at t = 5000
    let due = 5000 + timer.delay_ms;
    let mut now = 5000;
    while now < due {
        assert!(!s.win());
        now += 1;
    }
    assert_eq!(now, 6000);
    s.fire_win_timer(timer.epoch);
    assert!(s.win());
}

#[test]
fn restart_voids_pending_timer() {
    let mut s = GameSession::new(2);
    let timer = play_to_win(&mut s).unwrap();
    s.restart();
    assert_eq!(s.epoch(), 1);
    assert!(!s.win());
    assert_eq!(s.engine().cards_left(), 4);
    s.fire_win_timer(timer.epoch);
    assert!(!s.win());
    let again = play_to_win(&mut s).unwrap();
    assert_eq!(again.epoch, 1);
    s.fire_win_timer(again.epoch);
    assert!(s.win());
}

#[test]
fn restart_clears_win() {
    let mut s = GameSession::new(1);
    let t = play_to_win(&mut s).unwrap();
    s.fire_win_timer(t.epoch);
    assert!(s.win());
    s.restart();
    assert!(!s.win());
    assert_eq!(sorted(&(0..2).map(|i| s.engine().card(i).value).collect::<Vec<u8>>()), b"AA".to_vec());
}

#[test]
fn zero_pairs_never_win() {
    let mut s = GameSession::new(0);
    assert_eq!(s.engine().len(), 0);
    assert_eq!(s.click(0), None);
    assert!(!s.win());
}

#[test]
fn session_layout_follows_board() {
    let mut s = GameSession::new(3);
    assert_eq!(s.layout(), Layout { columns: 1, card_width_half_px: 200 });
    s.resize(board(800, 0));
    assert_eq!(s.layout(), Layout { columns: 1, card_width_half_px: 200 });
    s.resize(board(800, 600));
    assert_eq!(s.layout(), Layout { columns: 2, card_width_half_px: 527 });
    assert_eq!(card_ratio(), CARD);
    assert_eq!(GAP_PX, 20);
}
