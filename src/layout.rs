//! Grid layout of the board: how many columns the cards are laid out in,
//! and how wide each card is drawn.
//!
//! Aspect ratios are exact ratios of integers. With `W x H` the board's size,
//! `cw : ch` the card's aspect ratio, `n` cards and `c` columns, the grid has
//! `rows = ceil(n / c)` rows and the aspect ratio `c * cw / (rows * ch)`. Its
//! distance to the board's ratio `W / H` is
//! `|W * rows * ch - c * cw * H| / (H * rows * ch)`; the numerator is
//! `layout_offset` (with its sign), and since `H * ch` is common to every
//! column count, two column counts compare by `|offset| / rows` alone.
use vstd::arithmetic::div_mod::{
    lemma_fundamental_div_mod, lemma_fundamental_div_mod_converse_div, lemma_mod_pos_bound,
};
use vstd::prelude::*;

verus! {

/// Aspect ratio of one card, width to height.
#[derive(Clone, Copy, Debug, PartialEq, Eq, Structural)]
pub struct CardRatio {
    pub width: u16,
    pub height: u16,
}

/// Size of the board in pixels.
#[derive(Clone, Copy, Debug, PartialEq, Eq, Structural)]
pub struct BoardSize {
    pub width: u32,
    pub height: u32,
}

/// A computed layout: the column count and each card's width, in half pixels.
#[derive(Clone, Copy, Debug, PartialEq, Eq, Structural)]
pub struct Layout {
    pub columns: u64,
    pub card_width_half_px: u64,
}

impl CardRatio {
    pub open spec fn valid(self) -> bool {
        self.width > 0 && self.height > 0
    }
}

/// Rows needed for `n` cards in `c` columns: `ceil(n / c)`.
pub open spec fn rows_for(n: nat, c: nat) -> nat {
    ((n + c - 1) as nat / c) as nat
}

/// Total gap size between `k` cells in a line.
pub open spec fn gaps(gap: nat, k: nat) -> nat {
    if k == 0 {
        0
    } else {
        gap * (k - 1) as nat
    }
}

/// Signed numerator of the board's ratio minus the grid's ratio (see the
/// module documentation): positive when the grid is narrower than the board.
pub open spec fn layout_offset(card: CardRatio, n: nat, board: BoardSize, c: nat) -> int {
    board.width * card.height * rows_for(n, c) - c * (card.width * board.height)
}

pub open spec fn abs(x: int) -> nat {
    if x < 0 {
        (-x) as nat
    } else {
        x as nat
    }
}

/// The grid with `j` columns fits the board strictly worse than the one with
/// `i` columns: its aspect ratio lies strictly farther from the board's.
pub open spec fn fits_worse(card: CardRatio, n: nat, board: BoardSize, i: nat, j: nat) -> bool {
    abs(layout_offset(card, n, board, i)) * rows_for(n, j) < abs(
        layout_offset(card, n, board, j),
    ) * rows_for(n, i)
}

/// Going from `k` to `k + 1` columns makes the fit strictly worse.
pub open spec fn step_fits_worse(card: CardRatio, n: nat, board: BoardSize, k: nat) -> bool {
    fits_worse(card, n, board, k, k + 1)
}

/// `r` is where the scan over `1, 2, 3, ...` columns stops: no step up to `r`
/// made the fit worse, and the step from `r` to `r + 1` does.
pub open spec fn is_scan_result(card: CardRatio, n: nat, board: BoardSize, r: nat) -> bool {
    &&& r >= 1
    &&& forall|k: nat| 1 <= k < r ==> !#[trigger] step_fits_worse(card, n, board, k)
    &&& step_fits_worse(card, n, board, r)
}


/// `a - b`, or zero where `b` exceeds `a`.
pub open spec fn saturating_diff(a: nat, b: nat) -> nat {
    if a >= b {
        (a - b) as nat
    } else {
        0
    }
}

/// The card width, in half pixels, that fills the board's width with `c`
/// columns and their gaps, rounded down to a half pixel.
pub open spec fn width_fit_half_px(board: BoardSize, gap: nat, c: nat) -> nat {
    (2 * saturating_diff(board.width as nat, gaps(gap, c)) / c) as nat
}

/// The card width, in half pixels, at which the grid's rows and their gaps
/// fill the board's height, rounded down to a half pixel.
pub open spec fn height_fit_half_px(card: CardRatio, board: BoardSize, gap: nat, rows: nat) -> nat {
    (2 * saturating_diff(board.height as nat, gaps(gap, rows)) * card.width / (rows
        * card.height)) as nat
}

/// `2 * cw` times the height of the grid of `rows` rows of cards `w` half
/// pixels wide (a card is `w / 2 * ch / cw` pixels high).
pub open spec fn grid_height_scaled(card: CardRatio, gap: nat, rows: nat, w: nat) -> nat {
    (rows * w * card.height + 2 * card.width * gaps(gap, rows)) as nat
}

/// The board's height, scaled as in `grid_height_scaled`.
pub open spec fn board_height_scaled(card: CardRatio, board: BoardSize) -> nat {
    (2 * card.width * board.height) as nat
}

/// The card width, in half pixels, for `n` cards in `c` columns: the width
/// that fills the board's width where the grid then stays strictly lower
/// than the board, else the width that fills the board's height.
pub open spec fn card_width_half_px(
    card: CardRatio,
    n: nat,
    board: BoardSize,
    gap: nat,
    c: nat,
) -> nat {
    let rows = rows_for(n, c);
    let w = width_fit_half_px(board, gap, c);
    if grid_height_scaled(card, gap, rows, w) < board_height_scaled(card, board) {
        w
    } else {
        height_fit_half_px(card, board, gap, rows)
    }
}

/// `rows_for` is the ceiling of `n / c`: the least row count whose cells hold
/// all `n` cards.
pub proof fn lemma_rows(n: nat, c: nat)
    requires
        n >= 1,
        c >= 1,
    ensures
        rows_for(n, c) >= 1,
        rows_for(n, c) <= n,
        rows_for(n, c) * c >= n,
        (rows_for(n, c) - 1) * c < n,
        c >= n ==> rows_for(n, c) == 1,
{
    let x = (n + c - 1) as int;
    let q = rows_for(n, c) as int;
    lemma_fundamental_div_mod(x, c as int);
    lemma_mod_pos_bound(x, c as int);
    let r = x % (c as int);
    assert(x == c * q + r);
    assert(q * c >= n) by (nonlinear_arith)
        requires
            x == c * q + r,
            r < c,
            x == n + c - 1,
    ;
    assert((q - 1) * c < n) by (nonlinear_arith)
        requires
            x == c * q + r,
            r >= 0,
            x == n + c - 1,
    ;
    assert(q >= 1) by (nonlinear_arith)
        requires
            q * c >= n,
            n >= 1,
            c >= 1,
    ;
    assert(q <= n) by (nonlinear_arith)
        requires
            (q - 1) * c < n,
            q >= 1,
            c >= 1,
    ;
    if c >= n {
        assert(q <= 1) by (nonlinear_arith)
            requires
                (q - 1) * c < n,
                c >= n,
                q >= 1,
        ;
    }
}

/// No row count below `rows_for(n, c)` holds `n` cards in `c` columns.
pub proof fn lemma_rows_least(n: nat, c: nat, m: nat)
    requires
        n >= 1,
        c >= 1,
        m * c >= n,
    ensures
        rows_for(n, c) <= m,
{
    lemma_rows(n, c);
    let q = rows_for(n, c) as int;
    assert(q <= m) by (nonlinear_arith)
        requires
            (q - 1) * c < n,
            m * c >= n,
            c >= 1,
    ;
}

/// More columns never need more rows.
pub proof fn lemma_rows_monotone(n: nat, i: nat, j: nat)
    requires
        n >= 1,
        1 <= i <= j,
    ensures
        rows_for(n, j) <= rows_for(n, i),
{
    lemma_rows(n, i);
    let q = rows_for(n, i);
    assert(q * j >= n) by (nonlinear_arith)
        requires
            q * i >= n,
            i <= j,
            q >= 1,
    ;
    lemma_rows_least(n, j, q);
}

/// The grid's aspect ratio grows strictly with the column count, so the
/// signed distance `layout_offset / rows` falls strictly.
pub proof fn lemma_offset_decreasing(card: CardRatio, n: nat, board: BoardSize, i: nat, j: nat)
    requires
        card.valid(),
        board.height > 0,
        n >= 1,
        1 <= i < j,
    ensures
        layout_offset(card, n, board, j) * rows_for(n, i) < layout_offset(card, n, board, i)
            * rows_for(n, j),
{
    lemma_rows(n, i);
    lemma_rows(n, j);
    lemma_rows_monotone(n, i, j);
    let ri = rows_for(n, i) as int;
    let rj = rows_for(n, j) as int;
    let a = board.width * card.height;
    let b = card.width * board.height;
    assert(b >= 1) by (nonlinear_arith)
        requires
            card.width >= 1,
            board.height >= 1,
            b == card.width * board.height,
    ;
    let u = j * ri;
    let v = i * rj;
    assert(u > v) by (nonlinear_arith)
        requires
            1 <= rj <= ri,
            1 <= i < j,
            u == j * ri,
            v == i * rj,
    ;
    let x = a * rj;
    let y = j * b;
    assert((x - y) * ri == x * ri - y * ri) by (nonlinear_arith);
    assert(x * ri == a * (ri * rj)) by (nonlinear_arith)
        requires
            x == a * rj,
    ;
    assert(y * ri == b * u) by (nonlinear_arith)
        requires
            y == j * b,
            u == j * ri,
    ;
    let x2 = a * ri;
    let y2 = i * b;
    assert((x2 - y2) * rj == x2 * rj - y2 * rj) by (nonlinear_arith);
    assert(x2 * rj == a * (ri * rj)) by (nonlinear_arith)
        requires
            x2 == a * ri,
    ;
    assert(y2 * rj == b * v) by (nonlinear_arith)
        requires
            y2 == i * b,
            v == i * rj,
    ;
    assert(b * u > b * v) by (nonlinear_arith)
        requires
            u > v,
            b >= 1,
    ;
}

/// Once the grid is at least as wide as the board, one more column fits
/// strictly worse.
pub proof fn lemma_wide_grid_fits_worse(card: CardRatio, n: nat, board: BoardSize, c: nat)
    requires
        card.valid(),
        board.height > 0,
        n >= 1,
        c >= 1,
        layout_offset(card, n, board, c) <= 0,
    ensures
        fits_worse(card, n, board, c, c + 1),
{
    lemma_offset_decreasing(card, n, board, c, c + 1);
    lemma_rows(n, c);
    lemma_rows(n, c + 1);
    let a = layout_offset(card, n, board, c);
    let b = layout_offset(card, n, board, c + 1);
    let ra = rows_for(n, c) as int;
    let rb = rows_for(n, c + 1) as int;
    assert(b * ra < 0) by (nonlinear_arith)
        requires
            b * ra < a * rb,
            a <= 0,
            rb >= 1,
    ;
    assert(b < 0) by (nonlinear_arith)
        requires
            b * ra < 0,
            ra >= 1,
    ;
    assert((-a) * rb < (-b) * ra) by (nonlinear_arith)
        requires
            b * ra < a * rb,
    ;
}

/// With at least `max(n, W * ch)` columns the grid is at least as wide as
/// the board.
pub proof fn lemma_offset_eventually_nonpositive(card: CardRatio, n: nat, board: BoardSize, c: nat)
    requires
        card.valid(),
        board.height > 0,
        n >= 1,
        c >= n,
        c >= board.width * card.height,
    ensures
        layout_offset(card, n, board, c) <= 0,
{
    lemma_rows(n, c);
    let a = board.width * card.height;
    let b = card.width * board.height;
    assert(b >= 1) by (nonlinear_arith)
        requires
            card.width >= 1,
            board.height >= 1,
            b == card.width * board.height,
    ;
    assert(a * 1 <= c * b) by (nonlinear_arith)
        requires
            c >= a,
            a >= 0,
            b >= 1,
    ;
}

/// Rows needed for `n` cards in `c` columns.
fn rows_exec(n: u16, c: u64) -> (r: u64)
    requires
        c >= 1,
    ensures
        r == rows_for(n as nat, c as nat),
        n >= 1 ==> 1 <= r <= n,
        n == 0 ==> r == 0,
{
    if n >= 1 {
        proof {
            lemma_rows(n as nat, c as nat);
        }
    } else {
        proof {
            lemma_fundamental_div_mod_converse_div((c - 1) as int, c as int, 0, (c - 1) as int);
        }
    }
    (((n as u128) + (c as u128) - 1) / (c as u128)) as u64
}

/// `|layout_offset|` for `c` columns, computed exactly.
fn offset_abs(card: CardRatio, n: u16, board: BoardSize, c: u64) -> (r: u128)
    requires
        n >= 1,
        1 <= c <= 0x2_0000_0000_0000,
    ensures
        r == abs(layout_offset(card, n as nat, board, c as nat)),
        r <= 0x2_0000_0000_0000 * 0xffff_ffff_ffff,
{
    let rows = rows_exec(n, c);
    let w = board.width as u128;
    let ch = card.height as u128;
    let cw = card.width as u128;
    let h = board.height as u128;
    assert(w * ch <= 0xffff_ffff_ffff) by (nonlinear_arith)
        requires
            w <= 0xffff_ffff,
            ch <= 0xffff,
    ;
    let wh = w * ch;
    assert(wh * rows <= 0xffff_ffff_ffff * 0xffff) by (nonlinear_arith)
        requires
            wh <= 0xffff_ffff_ffff,
            rows <= 0xffff,
    ;
    let a = wh * rows as u128;
    assert(cw * h <= 0xffff_ffff_ffff) by (nonlinear_arith)
        requires
            h <= 0xffff_ffff,
            cw <= 0xffff,
    ;
    let b0 = cw * h;
    assert(c * b0 <= 0x2_0000_0000_0000 * 0xffff_ffff_ffff) by (nonlinear_arith)
        requires
            b0 <= 0xffff_ffff_ffff,
            c <= 0x2_0000_0000_0000,
    ;
    let b = c as u128 * b0;
    if a >= b {
        a - b
    } else {
        b - a
    }
}

/// The column count for `number_of_cards` cards of aspect ratio `card` on a
/// board of size `board`: the scan over `1, 2, 3, ...` columns that stops at
/// the first step that makes the fit strictly worse, and returns the column
/// count before it. No cards take a single column.
pub fn num_columns(card: CardRatio, number_of_cards: u16, board: BoardSize) -> (r: u64)
    requires
        card.valid(),
        board.height > 0,
    ensures
        r >= 1,
        number_of_cards == 0 ==> r == 1,
        number_of_cards > 0 ==> is_scan_result(card, number_of_cards as nat, board, r as nat),
{
    if number_of_cards == 0 {
        return 1;
    }
    let ghost n = number_of_cards as nat;
    assert(board.width as u64 * card.height as u64 <= 0xffff_ffff_ffff) by (nonlinear_arith)
        requires
            board.width <= 0xffff_ffff,
            card.height <= 0xffff,
    ;
    let wh = board.width as u64 * card.height as u64;
    // past this many columns the grid is wider than the board, so the scan
    // stops by then
    let widest: u64 = if wh >= number_of_cards as u64 {
        wh
    } else {
        number_of_cards as u64
    };
    let mut best = offset_abs(card, number_of_cards, board, 1);
    let mut best_rows = rows_exec(number_of_cards, 1);
    let mut columns: u64 = 2;
    while columns <= widest + 1
        invariant
            2 <= columns <= widest + 2,
            widest >= n,
            widest >= board.width * card.height,
            widest <= 0xffff_ffff_ffff,
            n == number_of_cards,
            n >= 1,
            card.valid(),
            board.height > 0,
            best == abs(layout_offset(card, n, board, (columns - 1) as nat)),
            best_rows == rows_for(n, (columns - 1) as nat),
            1 <= best_rows <= 0xffff,
            best <= 0x2_0000_0000_0000 * 0xffff_ffff_ffff,
            forall|k: nat| 1 <= k < columns - 1 ==> !#[trigger] step_fits_worse(card, n, board, k),
        decreases widest + 2 - columns,
    {
        let current = offset_abs(card, number_of_cards, board, columns);
        let current_rows = rows_exec(number_of_cards, columns);
        assert(best * current_rows <= 0x2_0000_0000_0000 * 0xffff_ffff_ffff * 0xffff)
            by (nonlinear_arith)
            requires
                best <= 0x2_0000_0000_0000 * 0xffff_ffff_ffff,
                current_rows <= 0xffff,
        ;
        assert(current * best_rows <= 0x2_0000_0000_0000 * 0xffff_ffff_ffff * 0xffff)
            by (nonlinear_arith)
            requires
                current <= 0x2_0000_0000_0000 * 0xffff_ffff_ffff,
                best_rows <= 0xffff,
        ;
        if best * (current_rows as u128) < current * (best_rows as u128) {
            return columns - 1;
        }
        best = current;
        best_rows = current_rows;
        columns = columns + 1;
    }
    proof {
        let last = (columns - 2) as nat;
        assert(last == widest);
        lemma_offset_eventually_nonpositive(card, n, board, last);
        lemma_wide_grid_fits_worse(card, n, board, last);
        assert(step_fits_worse(card, n, board, last));
    }
    // unreachable: the step to `widest + 1` columns makes the fit worse
    1
}

/// `a / p <= b / q < c / r` gives `a / p < c / r`, for positive denominators.
proof fn lemma_ratio_le_lt(a: int, p: int, b: int, q: int, c: int, r: int)
    requires
        p >= 1,
        q >= 1,
        r >= 1,
        a * q <= b * p,
        b * r < c * q,
    ensures
        a * r < c * p,
{
    assert(a * q * r <= b * p * r) by (nonlinear_arith)
        requires
            a * q <= b * p,
            r >= 1,
    ;
    assert(b * r * p < c * q * p) by (nonlinear_arith)
        requires
            b * r < c * q,
            p >= 1,
    ;
    assert(b * p * r == b * r * p) by (nonlinear_arith);
    assert(a * r * q < c * p * q) by (nonlinear_arith)
        requires
            a * q * r < c * q * p,
    ;
    assert(a * r < c * p) by (nonlinear_arith)
        requires
            a * r * q < c * p * q,
            q >= 1,
    ;
}

/// Between two column counts whose grids are both no wider than the board,
/// the one with more columns fits strictly better.
proof fn lemma_narrow_grids(card: CardRatio, n: nat, board: BoardSize, i: nat, j: nat)
    requires
        card.valid(),
        board.height > 0,
        n >= 1,
        1 <= i < j,
        layout_offset(card, n, board, j) >= 0,
    ensures
        fits_worse(card, n, board, j, i),
{
    lemma_offset_decreasing(card, n, board, i, j);
    lemma_rows(n, i);
    lemma_rows(n, j);
    let a = layout_offset(card, n, board, i);
    let b = layout_offset(card, n, board, j);
    let ra = rows_for(n, i) as int;
    let rb = rows_for(n, j) as int;
    assert(a > 0) by (nonlinear_arith)
        requires
            b * ra < a * rb,
            b >= 0,
            ra >= 1,
            rb >= 1,
    ;
}

/// Between two column counts whose grids are both at least as wide as the
/// board, the one with fewer columns fits strictly better.
proof fn lemma_wide_grids(card: CardRatio, n: nat, board: BoardSize, i: nat, j: nat)
    requires
        card.valid(),
        board.height > 0,
        n >= 1,
        1 <= i < j,
        layout_offset(card, n, board, i) <= 0,
    ensures
        fits_worse(card, n, board, i, j),
        layout_offset(card, n, board, j) < 0,
{
    lemma_offset_decreasing(card, n, board, i, j);
    lemma_rows(n, i);
    lemma_rows(n, j);
    let a = layout_offset(card, n, board, i);
    let b = layout_offset(card, n, board, j);
    let ra = rows_for(n, i) as int;
    let rb = rows_for(n, j) as int;
    assert(b * ra < 0) by (nonlinear_arith)
        requires
            b * ra < a * rb,
            a <= 0,
            rb >= 1,
    ;
    assert(b < 0) by (nonlinear_arith)
        requires
            b * ra < 0,
            ra >= 1,
    ;
    assert((-a) * rb < (-b) * ra) by (nonlinear_arith)
        requires
            b * ra < a * rb,
    ;
}

/// The scan finds a best fit: no column count, however large, gives a grid
/// whose aspect ratio lies strictly closer to the board's than the grid with
/// the scan's column count. So the scan agrees with a search over every
/// column count for the one that fits best.
pub proof fn lemma_scan_finds_best_fit(card: CardRatio, n: nat, board: BoardSize, r: nat, k: nat)
    requires
        card.valid(),
        board.height > 0,
        n >= 1,
        is_scan_result(card, n, board, r),
        k >= 1,
    ensures
        !fits_worse(card, n, board, k, r),
{
    lemma_rows(n, k);
    lemma_rows(n, r);
    let s = r + 1;
    lemma_rows(n, s);
    // the step that stopped the scan left a grid wider than the board
    if layout_offset(card, n, board, s) >= 0 {
        lemma_narrow_grids(card, n, board, r, s);
        assert(false);
    }
    if k > s {
        lemma_wide_grids(card, n, board, s, k);
        lemma_ratio_le_lt(
            abs(layout_offset(card, n, board, r)) as int,
            rows_for(n, r) as int,
            abs(layout_offset(card, n, board, s)) as int,
            rows_for(n, s) as int,
            abs(layout_offset(card, n, board, k)) as int,
            rows_for(n, k) as int,
        );
    } else if k < r {
        // before the stop every grid was narrower than the board
        assert forall|m: nat| 1 <= m < r implies layout_offset(card, n, board, m) >= 0 by {
            if layout_offset(card, n, board, m) < 0 {
                lemma_wide_grids(card, n, board, m, m + 1);
                assert(!step_fits_worse(card, n, board, m));
            }
        }
        if layout_offset(card, n, board, r) >= 0 {
            lemma_narrow_grids(card, n, board, k, r);
        } else {
            let q = (r - 1) as nat;
            assert(!step_fits_worse(card, n, board, q));
            if k < q {
                lemma_rows(n, q);
                lemma_narrow_grids(card, n, board, k, q);
                lemma_ratio_le_lt(
                    abs(layout_offset(card, n, board, r)) as int,
                    rows_for(n, r) as int,
                    abs(layout_offset(card, n, board, q)) as int,
                    rows_for(n, q) as int,
                    abs(layout_offset(card, n, board, k)) as int,
                    rows_for(n, k) as int,
                );
            }
        }
    }
}

/// The width of each card, in half pixels, for `number_of_cards` cards laid
/// out in `columns` columns with `gap` pixels between neighbours. Where the
/// width that fills the board's width would make the grid too high, the
/// width comes from the board's height instead; the grid is then no higher
/// than the board, wherever the gaps alone leave room for that.
pub fn card_width(
    card: CardRatio,
    number_of_cards: u16,
    board: BoardSize,
    gap: u32,
    columns: u64,
) -> (r: u64)
    requires
        card.valid(),
        board.height > 0,
        columns >= 1,
    ensures
        r == card_width_half_px(card, number_of_cards as nat, board, gap as nat, columns as nat),
        gaps(gap as nat, rows_for(number_of_cards as nat, columns as nat)) <= board.height
            ==> grid_height_scaled(
            card,
            gap as nat,
            rows_for(number_of_cards as nat, columns as nat),
            r as nat,
        ) <= board_height_scaled(card, board),
{
    let ghost n = number_of_cards as nat;
    let ghost c = columns as nat;
    let g = gap as u128;
    let w = board.width as u128;
    let h = board.height as u128;
    let cw = card.width as u128;
    let ch = card.height as u128;
    assert(g * (columns - 1) <= 0xffff_ffff * 0xffff_ffff_ffff_ffff) by (nonlinear_arith)
        requires
            g <= 0xffff_ffff,
            columns <= 0xffff_ffff_ffff_ffff,
            columns >= 1,
    ;
    let gaps_across = g * (columns as u128 - 1);
    let free_width: u128 = if w >= gaps_across {
        w - gaps_across
    } else {
        0
    };
    let width_fit = (2 * free_width) / (columns as u128);
    assert(width_fit <= 2 * free_width) by (nonlinear_arith)
        requires
            width_fit == (2 * free_width) / (columns as int),
            columns >= 1,
            free_width >= 0,
    ;
    let rows = rows_exec(number_of_cards, columns) as u128;
    assert(g * rows <= 0xffff_ffff * 0xffff) by (nonlinear_arith)
        requires
            g <= 0xffff_ffff,
            rows <= 0xffff,
    ;
    let gaps_down: u128 = if rows == 0 {
        0
    } else {
        assert(g * (rows - 1) <= g * rows) by (nonlinear_arith)
            requires
                rows >= 1,
                g >= 0,
        ;
        g * (rows - 1)
    };
    assert(gaps_down <= g * rows) by (nonlinear_arith)
        requires
            rows >= 1 ==> gaps_down == g * (rows - 1),
            rows == 0 ==> gaps_down == 0,
            g >= 0,
    ;
    assert(rows * width_fit <= 0xffff * 0x1_ffff_fffe) by (nonlinear_arith)
        requires
            rows <= 0xffff,
            width_fit <= 0x1_ffff_fffe,
    ;
    assert(rows * width_fit * ch <= 0xffff * 0x1_ffff_fffe * 0xffff) by (nonlinear_arith)
        requires
            rows * width_fit <= 0xffff * 0x1_ffff_fffe,
            ch <= 0xffff,
    ;
    assert(2 * cw * gaps_down <= 2 * 0xffff * (0xffff_ffff * 0xffff)) by (nonlinear_arith)
        requires
            cw <= 0xffff,
            gaps_down <= 0xffff_ffff * 0xffff,
    ;
    assert(2 * cw * h <= 2 * 0xffff * 0xffff_ffff) by (nonlinear_arith)
        requires
            cw <= 0xffff,
            h <= 0xffff_ffff,
    ;
    let grid_height = rows * width_fit * ch + 2 * cw * gaps_down;
    assert(rows == 0 ==> rows * width_fit * ch == 0) by (nonlinear_arith);
    assert(2 * cw * h >= 2) by (nonlinear_arith)
        requires
            cw >= 1,
            h >= 1,
    ;
    if grid_height < 2 * cw * h {
        return width_fit as u64;
    }
    let free_height: u128 = if h >= gaps_down {
        h - gaps_down
    } else {
        0
    };
    assert(rows >= 1);
    assert(1 <= rows * ch <= 0xffff * 0xffff) by (nonlinear_arith)
        requires
            1 <= rows <= 0xffff,
            1 <= ch <= 0xffff,
    ;
    assert(2 * free_height * cw <= 2 * 0xffff_ffff * 0xffff) by (nonlinear_arith)
        requires
            free_height <= 0xffff_ffff,
            cw <= 0xffff,
    ;
    let height_fit = (2 * free_height * cw) / (rows * ch);
    assert(height_fit <= 2 * free_height * cw) by (nonlinear_arith)
        requires
            height_fit == (2 * free_height * cw) / (rows * ch),
            rows * ch >= 1,
            free_height >= 0,
            cw >= 0,
    ;
    proof {
        let x = 2 * free_height * cw;
        let d = rows * ch;
        lemma_fundamental_div_mod(x as int, d as int);
        lemma_mod_pos_bound(x as int, d as int);
        assert(height_fit * d <= x) by (nonlinear_arith)
            requires
                x == d * height_fit + x % d,
                x % d >= 0,
        ;
        assert(rows * height_fit * ch == height_fit * d) by (nonlinear_arith)
            requires
                d == rows * ch,
        ;
        if gaps_down <= h {
            assert(2 * free_height * cw + 2 * cw * gaps_down == 2 * cw * h) by (nonlinear_arith)
                requires
                    free_height == h - gaps_down,
            ;
        }
    }
    height_fit as u64
}

/// The layout of `number_of_cards` cards on a board: the column count that
/// the scan picks, and the card width for it.
pub fn compute_layout(
    card: CardRatio,
    number_of_cards: u16,
    board: BoardSize,
    gap: u32,
) -> (r: Layout)
    requires
        card.valid(),
        board.height > 0,
    ensures
        r.columns >= 1,
        number_of_cards == 0 ==> r.columns == 1,
        number_of_cards > 0 ==> is_scan_result(card, number_of_cards as nat, board, r.columns as nat),
        r.card_width_half_px == card_width_half_px(
            card,
            number_of_cards as nat,
            board,
            gap as nat,
            r.columns as nat,
        ),
{
    let columns = num_columns(card, number_of_cards, board);
    let card_width_half_px = card_width(card, number_of_cards, board, gap, columns);
    Layout { columns, card_width_half_px }
}

} // verus!
