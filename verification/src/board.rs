//! The mathematical model of a game: the grid as a sequence of columns, and
//! the rules as functions from one board to the next.

use vstd::prelude::*;
use crate::command::Command;
use crate::player::Player;

verus! {

/// A game as contracts see it. `grid[col][row]` is the mark in that cell, and
/// row 0 is the top of a column.
pub struct Board {
    pub winner: Option<(Player, ((usize, usize), (usize, usize)))>,
    pub turn: Player,
    pub grid: Seq<Seq<Option<Player>>>,
    pub size: nat,
    pub win: nat,
    pub gravity: bool,
}

/// The largest index of an empty cell in `column`, or -1 if every cell is
/// taken.
pub open spec fn lowest_empty(column: Seq<Option<Player>>) -> int
    decreases column.len(),
{
    if column.len() == 0 {
        -1
    } else if column.last() is None {
        column.len() - 1
    } else {
        lowest_empty(column.drop_last())
    }
}

impl Board {
    /// The grid is a square of side `size`.
    pub open spec fn wf(self) -> bool {
        &&& self.grid.len() == self.size
        &&& forall|c: int| 0 <= c < self.size ==> (#[trigger] self.grid[c]).len() == self.size
    }

    /// The board a game starts from: every cell empty, no winner, Naughts to
    /// move.
    pub open spec fn fresh(size: nat, win: nat, gravity: bool) -> Board {
        Board {
            winner: None,
            turn: Player::Naughts,
            grid: Seq::new(size, |c: int| Seq::new(size, |r: int| None::<Player>)),
            size,
            win,
            gravity,
        }
    }

    /// The cell lies in the grid.
    pub open spec fn inside(self, col: int, row: int) -> bool {
        0 <= col < self.size && 0 <= row < self.size
    }

    /// The cell lies in the grid and carries `player`'s mark.
    pub open spec fn holds(self, col: int, row: int, player: Player) -> bool {
        self.inside(col, row) && self.grid[col][row] == Some(player)
    }

    /// The cell `k` steps of `(dx, dy)` away from `(col, row)` carries
    /// `player`'s mark.
    pub open spec fn holds_at(
        self,
        col: int,
        row: int,
        dx: int,
        dy: int,
        k: int,
        player: Player,
    ) -> bool {
        self.holds(col + k * dx, row + k * dy, player)
    }

    /// A scan from `(col, row)` by `(dx, dy)` comes to an end: it moves, or it
    /// stands on a cell that does not carry `player`'s mark.
    pub open spec fn scan_ends(self, col: int, row: int, dx: int, dy: int, player: Player) -> bool {
        dx != 0 || dy != 0 || !self.holds(col, row, player)
    }

    /// Exactly `n` cells in a row, starting one step from `(col, row)` and
    /// going by `(dx, dy)`, carry `player`'s mark: the first `n` do and the
    /// next one does not.
    pub open spec fn is_streak(
        self,
        col: int,
        row: int,
        dx: int,
        dy: int,
        player: Player,
        n: nat,
    ) -> bool {
        &&& forall|k: int| 1 <= k <= n ==> #[trigger] self.holds_at(col, row, dx, dy, k, player)
        &&& !self.holds_at(col, row, dx, dy, n + 1int, player)
    }

    /// The number of consecutive cells with `player`'s mark that follow
    /// `(col, row)` in the direction `(dx, dy)`.
    pub open spec fn streak(self, col: int, row: int, dx: int, dy: int, player: Player) -> nat {
        choose|n: nat| self.is_streak(col, row, dx, dy, player, n)
    }

    /// The length of `player`'s line through `(col, row)` along `(dx, dy)`,
    /// the cell itself counted.
    pub open spec fn axis_len(self, col: int, row: int, dx: int, dy: int, player: Player) -> nat {
        self.streak(col, row, dx, dy, player) + self.streak(col, row, -dx, -dy, player) + 1
    }

    /// The two ends of that line: the last cell forwards, then the last cell
    /// backwards.
    pub open spec fn axis_ends(self, col: int, row: int, dx: int, dy: int, player: Player) -> (
        (usize, usize),
        (usize, usize),
    ) {
        let f = self.streak(col, row, dx, dy, player);
        let b = self.streak(col, row, -dx, -dy, player);
        (
            ((col + f * dx) as usize, (row + f * dy) as usize),
            ((col - b * dx) as usize, (row - b * dy) as usize),
        )
    }

    /// `player`'s line through `(col, row)` along `(dx, dy)` wins the game.
    pub open spec fn axis_wins(self, col: int, row: int, dx: int, dy: int, player: Player) -> bool {
        self.axis_len(col, row, dx, dy, player) >= self.win
    }

    /// The ends of the first line of at least `win` marks of `player` through
    /// `(col, row)`, trying the line across the columns `(1, 0)`, the line
    /// down the column `(0, 1)`, the falling diagonal `(1, 1)` and the rising
    /// diagonal `(-1, 1)` in this order.
    pub open spec fn winning_line(self, col: int, row: int, player: Player) -> Option<
        ((usize, usize), (usize, usize)),
    > {
        if self.axis_wins(col, row, 1, 0, player) {
            Some(self.axis_ends(col, row, 1, 0, player))
        } else if self.axis_wins(col, row, 0, 1, player) {
            Some(self.axis_ends(col, row, 0, 1, player))
        } else if self.axis_wins(col, row, 1, 1, player) {
            Some(self.axis_ends(col, row, 1, 1, player))
        } else if self.axis_wins(col, row, -1, 1, player) {
            Some(self.axis_ends(col, row, -1, 1, player))
        } else {
            None
        }
    }

    /// The cells from `b` steps behind `(col, row)` to `f` steps ahead of it
    /// along one of the four axes all carry `player`'s mark, and the next cell
    /// at either end does not.
    pub open spec fn on_axis(
        self,
        col: int,
        row: int,
        dx: int,
        dy: int,
        f: nat,
        b: nat,
        player: Player,
    ) -> bool {
        &&& (dx, dy) == (1int, 0int) || (dx, dy) == (0int, 1int) || (dx, dy) == (1int, 1int) || (
        dx, dy) == (-1int, 1int)
        &&& forall|k: int| -b <= k <= f ==> #[trigger] self.holds_at(col, row, dx, dy, k, player)
        &&& !self.holds_at(col, row, dx, dy, f + 1int, player)
        &&& !self.holds_at(col, row, dx, dy, -b - 1, player)
    }

    /// A move at `(col, row)` addresses the grid. With gravity the row is not
    /// looked at, and once the game is won no cell is.
    pub open spec fn admits(self, col: int, row: int) -> bool {
        self.winner is None ==> 0 <= col < self.size && (self.gravity || 0 <= row < self.size)
    }

    /// The row in which a mark placed at `(col, row)` comes to rest, or
    /// `None` where the move is refused: the game is won, the cell is taken
    /// or, with gravity, the top cell of the column is taken. With gravity the
    /// mark falls to the lowest empty cell of its column.
    pub open spec fn landing(self, col: int, row: int) -> Option<int> {
        if self.winner is Some {
            None
        } else if self.gravity {
            if self.grid[col][0] is Some {
                None
            } else {
                Some(lowest_empty(self.grid[col]))
            }
        } else {
            if self.grid[col][row] is Some {
                None
            } else {
                Some(row)
            }
        }
    }

    /// The board with the mover's mark written into `(col, row)`.
    pub open spec fn marked(self, col: int, row: int) -> Board {
        Board { grid: self.grid.update(col, self.grid[col].update(row, Some(self.turn))), ..self }
    }

    /// The board after the mover places a mark at `(col, row)`. A refused move
    /// leaves the board as it is. An accepted one writes the mark where it
    /// lands, records the mover as the winner together with the winning line
    /// through that cell if there is one, and passes the turn.
    pub open spec fn place(self, col: int, row: int) -> Board {
        match self.landing(col, row) {
            None => self,
            Some(r) => {
                let marked = self.marked(col, r);
                Board {
                    winner: match marked.winning_line(col, r, self.turn) {
                        Some(line) => Some((self.turn, line)),
                        None => None,
                    },
                    turn: self.turn.other(),
                    ..marked
                }
            },
        }
    }

    /// The board after `cmd`: a move is placed, a restart gives a fresh board
    /// with the same settings, and the commands of the lobby change nothing.
    pub open spec fn simulate(self, cmd: Command) -> Board {
        match cmd {
            Command::Place(col, row) => self.place(col as int, row as int),
            Command::Restart => Board::fresh(self.size, self.win, self.gravity),
            _ => self,
        }
    }
}

/// A direction has at most one streak length: two numbers that both satisfy
/// `is_streak` for the same cell, direction and player are equal.
pub proof fn lemma_streak_unique(
    board: Board,
    col: int,
    row: int,
    dx: int,
    dy: int,
    player: Player,
    n: nat,
    m: nat,
)
    requires
        board.is_streak(col, row, dx, dy, player, n),
        board.is_streak(col, row, dx, dy, player, m),
    ensures
        n == m,
{
    if n < m {
        assert(board.holds_at(col, row, dx, dy, n + 1int, player));
    } else if m < n {
        assert(board.holds_at(col, row, dx, dy, m + 1int, player));
    }
}

/// A number that satisfies `is_streak` is the streak.
pub proof fn lemma_streak_is(
    board: Board,
    col: int,
    row: int,
    dx: int,
    dy: int,
    player: Player,
    n: nat,
)
    requires
        board.is_streak(col, row, dx, dy, player, n),
    ensures
        board.streak(col, row, dx, dy, player) == n,
{
    lemma_streak_unique(board, col, row, dx, dy, player, n, board.streak(col, row, dx, dy, player));
}

/// Marks that follow one another in a direction lie in different columns or
/// in different rows, so no more of them than the grid has on a side can be
/// aligned.
pub proof fn lemma_streak_bounded(
    board: Board,
    col: int,
    row: int,
    dx: int,
    dy: int,
    player: Player,
    n: nat,
)
    requires
        dx != 0 || dy != 0,
        forall|k: int| 1 <= k <= n ==> #[trigger] board.holds_at(col, row, dx, dy, k, player),
    ensures
        n <= board.size,
{
    if n >= 1 {
        assert(board.holds_at(col, row, dx, dy, 1, player));
        assert(board.holds_at(col, row, dx, dy, n as int, player));
        lemma_span(n as int - 1, dx);
        lemma_span(n as int - 1, dy);
        assert(n * dx - 1 * dx == (n - 1) * dx) by (nonlinear_arith);
        assert(n * dy - 1 * dy == (n - 1) * dy) by (nonlinear_arith);
    }
}

/// `k` steps of a non-zero stride cover a distance of at least `k`.
proof fn lemma_span(k: int, d: int)
    requires
        k >= 0,
    ensures
        d >= 1 ==> k * d >= k,
        d <= -1 ==> k * d <= -k,
{
    assert(d >= 1 ==> k * d >= k) by (nonlinear_arith)
        requires
            k >= 0,
    ;
    assert(d <= -1 ==> k * d <= -k) by (nonlinear_arith)
        requires
            k >= 0,
    ;
}

/// The line through a cell of the grid, forwards and backwards together and
/// the cell itself counted, is no longer than the grid has on a side.
pub proof fn lemma_axis_bounded(
    board: Board,
    col: int,
    row: int,
    dx: int,
    dy: int,
    player: Player,
    f: nat,
    b: nat,
)
    requires
        dx != 0 || dy != 0,
        board.inside(col, row),
        forall|k: int| 1 <= k <= f ==> #[trigger] board.holds_at(col, row, dx, dy, k, player),
        forall|k: int| 1 <= k <= b ==> #[trigger] board.holds_at(col, row, -dx, -dy, k, player),
    ensures
        f + b + 1 <= board.size,
        board.inside(col + f * dx, row + f * dy),
        board.inside(col - b * dx, row - b * dy),
{
    if f >= 1 {
        assert(board.holds_at(col, row, dx, dy, f as int, player));
    }
    if b >= 1 {
        assert(board.holds_at(col, row, -dx, -dy, b as int, player));
    }
    assert(b * (-dx) == -(b * dx)) by (nonlinear_arith);
    assert(b * (-dy) == -(b * dy)) by (nonlinear_arith);
    assert((f + b) * dx == f * dx + b * dx) by (nonlinear_arith);
    assert((f + b) * dy == f * dy + b * dy) by (nonlinear_arith);
    lemma_span((f + b) as int, dx);
    lemma_span((f + b) as int, dy);
}

/// What gravity looks for in a column: `lowest_empty` is the index of an
/// empty cell below which every cell is taken, and it is -1 only if the whole
/// column is taken.
pub proof fn lemma_lowest_empty(column: Seq<Option<Player>>)
    ensures
        -1 <= lowest_empty(column) < column.len(),
        lowest_empty(column) >= 0 ==> column[lowest_empty(column)] is None,
        forall|j: int| lowest_empty(column) < j < column.len() ==> (#[trigger] column[j]) is Some,
    decreases column.len(),
{
    if column.len() > 0 && column.last() is Some {
        lemma_lowest_empty(column.drop_last());
        assert forall|j: int| lowest_empty(column) < j < column.len() implies (
        #[trigger] column[j]) is Some by {
            if j < column.len() - 1 {
                assert(column.drop_last()[j] is Some);
            }
        }
    }
}

/// The line through a cell of the grid, read off the two streaks that leave
/// it: its length, that it fits in the grid, and where it ends.
pub proof fn lemma_axis(
    board: Board,
    col: int,
    row: int,
    dx: int,
    dy: int,
    player: Player,
    f: nat,
    b: nat,
)
    requires
        dx != 0 || dy != 0,
        board.inside(col, row),
        board.is_streak(col, row, dx, dy, player, f),
        board.is_streak(col, row, -dx, -dy, player, b),
    ensures
        board.streak(col, row, dx, dy, player) == f,
        board.streak(col, row, -dx, -dy, player) == b,
        board.axis_len(col, row, dx, dy, player) == f + b + 1 <= board.size,
        board.inside(col + f * dx, row + f * dy),
        board.inside(col + b * (-dx), row + b * (-dy)),
        col + b * (-dx) == col - b * dx,
        row + b * (-dy) == row - b * dy,
{
    lemma_streak_is(board, col, row, dx, dy, player, f);
    lemma_streak_is(board, col, row, -dx, -dy, player, b);
    lemma_axis_bounded(board, col, row, dx, dy, player, f, b);
    assert(b * (-dx) == -(b * dx)) by (nonlinear_arith);
    assert(b * (-dy) == -(b * dy)) by (nonlinear_arith);
}

/// Every direction but `(0, 0)` has a streak: the scan that `streak` stands
/// for comes to an end, so `streak` satisfies `is_streak` and is at most the
/// side of the grid.
pub proof fn lemma_streak_exists(
    board: Board,
    col: int,
    row: int,
    dx: int,
    dy: int,
    player: Player,
)
    requires
        dx != 0 || dy != 0,
    ensures
        board.is_streak(col, row, dx, dy, player, board.streak(col, row, dx, dy, player)),
        board.streak(col, row, dx, dy, player) <= board.size,
{
    lemma_streak_from(board, col, row, dx, dy, player, 0);
    let n = board.streak(col, row, dx, dy, player);
    lemma_streak_bounded(board, col, row, dx, dy, player, n);
}

/// Induction for `lemma_streak_exists`: once `n` cells in a row are known to
/// carry the mark, some streak length exists.
proof fn lemma_streak_from(
    board: Board,
    col: int,
    row: int,
    dx: int,
    dy: int,
    player: Player,
    n: nat,
)
    requires
        dx != 0 || dy != 0,
        forall|k: int| 1 <= k <= n ==> #[trigger] board.holds_at(col, row, dx, dy, k, player),
    ensures
        exists|m: nat| board.is_streak(col, row, dx, dy, player, m),
    decreases board.size - n,
{
    lemma_streak_bounded(board, col, row, dx, dy, player, n);
    if board.holds_at(col, row, dx, dy, n + 1int, player) {
        lemma_streak_bounded(board, col, row, dx, dy, player, n + 1);
        lemma_streak_from(board, col, row, dx, dy, player, n + 1);
    } else {
        assert(board.is_streak(col, row, dx, dy, player, n));
    }
}

/// What a move does to the board. A refused move changes nothing. An
/// accepted one lands in an empty cell of the chosen column, writes the
/// mover's mark there and nowhere else, makes the mover the winner exactly
/// if a winning line of the mover's marks now runs through that cell, passes
/// the turn, and keeps the grid square and the settings as they were.
pub proof fn lemma_place_effect(board: Board, col: int, row: int)
    requires
        board.wf(),
        board.admits(col, row),
    ensures
        board.place(col, row).wf(),
        board.place(col, row).size == board.size,
        board.place(col, row).win == board.win,
        board.place(col, row).gravity == board.gravity,
        board.landing(col, row) is None ==> board.place(col, row) == board,
        board.landing(col, row) matches Some(r) ==> {
            &&& board.inside(col, r)
            &&& board.grid[col][r] is None
            &&& board.place(col, row).grid[col][r] == Some(board.turn)
            &&& board.place(col, row).turn == board.turn.other()
            &&& board.place(col, row).winner == match board.marked(col, r).winning_line(
                col,
                r,
                board.turn,
            ) {
                Some(line) => Some((board.turn, line)),
                None => None,
            }
            &&& forall|c: int, q: int|
                board.inside(c, q) && (c != col || q != r) ==> #[trigger] board.place(
                    col,
                    row,
                ).grid[c][q] == board.grid[c][q]
            &&& !board.gravity ==> r == row
            &&& board.gravity ==> forall|q: int|
                r < q < board.size ==> (#[trigger] board.grid[col][q]) is Some
        },
{
    if board.landing(col, row) is Some && board.gravity {
        lemma_lowest_empty(board.grid[col]);
    }
}

/// A recorded winning line is a line: if `player`'s mark is at
/// `(col, row)` and `winning_line` gives two ends, then the ends lie on one
/// of the four axes through the cell, `f` steps forwards and `b` steps
/// backwards, every cell from one end to the other carries `player`'s mark,
/// there are at least `win` of them, and the cell beyond either end does not
/// carry it.
pub proof fn lemma_winning_line_is_full(board: Board, col: int, row: int, player: Player)
    requires
        board.holds(col, row, player),
        board.winning_line(col, row, player) is Some,
    ensures
        exists|dx: int, dy: int, f: nat, b: nat|
            {
                &&& #[trigger] board.on_axis(col, row, dx, dy, f, b, player)
                &&& f + b + 1 >= board.win
                &&& board.winning_line(col, row, player) == Some(
                    (
                        ((col + f * dx) as usize, (row + f * dy) as usize),
                        ((col - b * dx) as usize, (row - b * dy) as usize),
                    ),
                )
            },
{
    let (dx, dy): (int, int) = if board.axis_wins(col, row, 1, 0, player) {
        (1, 0)
    } else if board.axis_wins(col, row, 0, 1, player) {
        (0, 1)
    } else if board.axis_wins(col, row, 1, 1, player) {
        (1, 1)
    } else {
        (-1, 1)
    };
    let f = board.streak(col, row, dx, dy, player);
    let b = board.streak(col, row, -dx, -dy, player);
    lemma_streak_exists(board, col, row, dx, dy, player);
    lemma_streak_exists(board, col, row, -dx, -dy, player);
    assert forall|k: int| -b <= k <= f implies #[trigger] board.holds_at(
        col,
        row,
        dx,
        dy,
        k,
        player,
    ) by {
        if k < 0 {
            assert(board.holds_at(col, row, -dx, -dy, -k, player));
            assert((-k) * (-dx) == k * dx) by (nonlinear_arith);
            assert((-k) * (-dy) == k * dy) by (nonlinear_arith);
        }
    }
    assert(!board.holds_at(col, row, dx, dy, f + 1int, player));
    assert(!board.holds_at(col, row, -dx, -dy, b + 1int, player));
    assert((b + 1) * (-dx) == (-b - 1) * dx) by (nonlinear_arith);
    assert((b + 1) * (-dy) == (-b - 1) * dy) by (nonlinear_arith);
    assert(board.on_axis(col, row, dx, dy, f, b, player));
}

/// No line is missed: if the cells from `b` steps behind `(col, row)` to `f`
/// steps ahead of it on one of the four axes carry `player`'s mark and are
/// at least `win` in number, `winning_line` gives a line.
pub proof fn lemma_full_line_is_found(
    board: Board,
    col: int,
    row: int,
    dx: int,
    dy: int,
    f: nat,
    b: nat,
    player: Player,
)
    requires
        board.on_axis(col, row, dx, dy, f, b, player),
        f + b + 1 >= board.win,
    ensures
        board.winning_line(col, row, player) is Some,
{
    assert forall|k: int| 1 <= k <= b implies #[trigger] board.holds_at(
        col,
        row,
        -dx,
        -dy,
        k,
        player,
    ) by {
        assert(board.holds_at(col, row, dx, dy, -k, player));
        assert(k * (-dx) == (-k) * dx) by (nonlinear_arith);
        assert(k * (-dy) == (-k) * dy) by (nonlinear_arith);
    }
    assert((b + 1) * (-dx) == (-b - 1) * dx) by (nonlinear_arith);
    assert((b + 1) * (-dy) == (-b - 1) * dy) by (nonlinear_arith);
    lemma_streak_is(board, col, row, dx, dy, player, f);
    lemma_streak_is(board, col, row, -dx, -dy, player, b);
    assert(board.axis_wins(col, row, dx, dy, player));
}

} // verus!
