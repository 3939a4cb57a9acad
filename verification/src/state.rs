//! The state of a game as the server keeps it and the clients draw it.

use vstd::prelude::*;
use crate::board::lowest_empty;
use crate::board::Board;
use crate::board::lemma_axis;
use crate::board::lemma_lowest_empty;
use crate::board::lemma_streak_bounded;
use crate::board::lemma_streak_is;
use crate::player::Player;

verus! {

/// A game in progress. `grid[col][row]` is the mark in a cell, row 0 at the
/// top; `winner` holds the player who won and the two ends of the winning
/// line once there is one.
#[derive(Clone, Debug)]
pub struct State {
    pub winner: Option<(Player, ((usize, usize), (usize, usize)))>,
    pub turn: Player,
    pub grid: Vec<Vec<Option<Player>>>,
    pub size: usize,
    pub win: usize,
    pub gravity: bool,
}

impl View for State {
    type V = Board;

    open spec fn view(&self) -> Board {
        Board {
            winner: self.winner,
            turn: self.turn,
            grid: Seq::new(self.grid.len() as nat, |c: int| self.grid[c]@),
            size: self.size as nat,
            win: self.win as nat,
            gravity: self.gravity,
        }
    }
}

/// The coordinate `k` unit steps away from `origin`.
fn offset(origin: usize, step: i32, k: usize) -> (cell: usize)
    requires
        -1 <= step <= 1,
        0 <= origin + k * step <= usize::MAX,
    ensures
        cell == origin + k * step,
{
    assert(k * step == if step == 1 {
        k as int
    } else if step == -1 {
        -k
    } else {
        0
    }) by (nonlinear_arith)
        requires
            -1 <= step <= 1,
    ;
    if step == 1 {
        origin + k
    } else if step == -1 {
        origin - k
    } else {
        origin
    }
}

impl State {
    /// The grid is a square of side `size`.
    pub open spec fn wf(&self) -> bool {
        self@.wf()
    }

    /// A game of `size` columns and rows that `win` aligned marks win, with
    /// every cell empty and Naughts to move.
    pub fn new(size: usize, win: usize, gravity: bool) -> (state: State)
        ensures
            state@ == Board::fresh(size as nat, win as nat, gravity),
            state.wf(),
    {
        let mut grid: Vec<Vec<Option<Player>>> = Vec::new();
        let mut c: usize = 0;
        while c < size
            invariant
                c <= size,
                grid.len() == c,
                forall|i: int| 0 <= i < c ==> (#[trigger] grid[i])@ == Seq::new(
                    size as nat,
                    |r: int| None::<Player>,
                ),
            decreases size - c,
        {
            let mut column: Vec<Option<Player>> = Vec::new();
            let mut r: usize = 0;
            while r < size
                invariant
                    r <= size,
                    column.len() == r,
                    forall|j: int| 0 <= j < r ==> (#[trigger] column[j]) is None,
                decreases size - r,
            {
                column.push(None);
                r += 1;
            }
            assert(column@ =~= Seq::new(size as nat, |r: int| None::<Player>));
            grid.push(column);
            c += 1;
        }
        let state = State { winner: None, turn: Player::Naughts, grid, size, win, gravity };
        assert(state@.grid =~= Board::fresh(size as nat, win as nat, gravity).grid);
        state
    }

    /// Counts from wide coordinates, so that a grid of any size can be
    /// scanned from any of its cells.
    fn scan(&self, col: i128, row: i128, dx: i128, dy: i128, player: Player) -> (count: usize)
        requires
            self.wf(),
            self@.scan_ends(col as int, row as int, dx as int, dy as int, player),
            -0x1_0000_0000_0000_0000 <= col <= 0x1_0000_0000_0000_0000,
            -0x1_0000_0000_0000_0000 <= row <= 0x1_0000_0000_0000_0000,
            -0x1_0000_0000_0000_0000 <= dx <= 0x1_0000_0000_0000_0000,
            -0x1_0000_0000_0000_0000 <= dy <= 0x1_0000_0000_0000_0000,
        ensures
            self@.is_streak(col as int, row as int, dx as int, dy as int, player, count as nat),
            count <= self.size,
    {
        let mut count: usize = 0;
        let mut c: i128 = col;
        let mut r: i128 = row;
        loop
            invariant
                self.wf(),
                self@.scan_ends(col as int, row as int, dx as int, dy as int, player),
                -0x1_0000_0000_0000_0000 <= dx <= 0x1_0000_0000_0000_0000,
                -0x1_0000_0000_0000_0000 <= dy <= 0x1_0000_0000_0000_0000,
                -0x1_0000_0000_0000_0000 <= c <= 0x1_0000_0000_0000_0000,
                -0x1_0000_0000_0000_0000 <= r <= 0x1_0000_0000_0000_0000,
                c == col + count * dx,
                r == row + count * dy,
                count <= self.size,
                forall|k: int|
                    1 <= k <= count ==> #[trigger] self@.holds_at(
                        col as int,
                        row as int,
                        dx as int,
                        dy as int,
                        k,
                        player,
                    ),
            decreases self.size - count,
        {
            assert((count + 1) * dx == count * dx + dx) by (nonlinear_arith);
            assert((count + 1) * dy == count * dy + dy) by (nonlinear_arith);
            c = c + dx;
            r = r + dy;
            if c < 0 || c >= self.size as i128 || r < 0 || r >= self.size as i128 {
                return count;
            }
            assert(self@.grid[c as int] == self.grid[c as int]@);
            let mine = match self.grid[c as usize][r as usize] {
                Some(p) => p == player,
                None => false,
            };
            if !mine {
                return count;
            }
            proof {
                assert(self@.holds_at(
                    col as int,
                    row as int,
                    dx as int,
                    dy as int,
                    count + 1,
                    player,
                ));
                lemma_streak_bounded(
                    self@,
                    col as int,
                    row as int,
                    dx as int,
                    dy as int,
                    player,
                    (count + 1) as nat,
                );
            }
            count += 1;
        }
    }

    /// Counts the consecutive cells that carry `player`'s mark, starting one
    /// step of `(x, y)` away from `(col, row)` and going on by the same step
    /// until a cell lies off the grid or carries something else. The step
    /// `(0, 0)` is taken only from a cell that does not carry the mark: from
    /// one that does, the count would never end.
    pub fn check_direction(&self, col: i32, row: i32, x: i32, y: i32, player: Player) -> (count:
        usize)
        requires
            self.wf(),
            self@.scan_ends(col as int, row as int, x as int, y as int, player),
        ensures
            self@.is_streak(col as int, row as int, x as int, y as int, player, count as nat),
            count == self@.streak(col as int, row as int, x as int, y as int, player),
    {
        let count = self.scan(col as i128, row as i128, x as i128, y as i128, player);
        proof {
            lemma_streak_is(
                self@,
                col as int,
                row as int,
                x as int,
                y as int,
                player,
                count as nat,
            );
        }
        count
    }
    /// The row to which a mark dropped into `col` falls: the lowest empty
    /// cell of the column, whose top cell is known to be empty.
    fn landing_row(&self, col: usize) -> (row: usize)
        requires
            self.wf(),
            col < self.size,
            self@.grid[col as int][0] is None,
        ensures
            row < self.size,
            row == lowest_empty(self@.grid[col as int]),
            self@.grid[col as int][row as int] is None,
    {
        proof {
            assert(self@.grid[col as int] == self.grid[col as int]@);
            lemma_lowest_empty(self@.grid[col as int]);
        }
        let mut ii: usize = self.grid[col].len();
        assert(self.grid[col as int]@.take(ii as int) =~= self.grid[col as int]@);
        while ii > 0
            invariant
                col < self.grid.len(),
                ii <= self.grid[col as int].len() == self.size,
                lowest_empty(self.grid[col as int]@) == lowest_empty(
                    self.grid[col as int]@.take(ii as int),
                ),
            decreases ii,
        {
            ii -= 1;
            let ghost upto = self.grid[col as int]@.take(ii + 1);
            assert(upto.last() == self.grid[col as int]@[ii as int]);
            assert(upto.drop_last() =~= self.grid[col as int]@.take(ii as int));
            if self.grid[col][ii].is_none() {
                return ii;
            }
        }
        0
    }

    /// The ends of `player`'s line through `(col, row)` along `(dx, dy)` if it
    /// is long enough to win.
    fn axis(&self, col: usize, row: usize, dx: i32, dy: i32, player: Player) -> (line: Option<
        ((usize, usize), (usize, usize)),
    >)
        requires
            self.wf(),
            col < self.size,
            row < self.size,
            -1 <= dx <= 1,
            -1 <= dy <= 1,
            dx != 0 || dy != 0,
        ensures
            line == if self@.axis_wins(col as int, row as int, dx as int, dy as int, player) {
                Some(self@.axis_ends(col as int, row as int, dx as int, dy as int, player))
            } else {
                None
            },
    {
        let forward_count = self.scan(col as i128, row as i128, dx as i128, dy as i128, player);
        let backward_count = self.scan(
            col as i128,
            row as i128,
            -(dx as i128),
            -(dy as i128),
            player,
        );
        proof {
            lemma_axis(
                self@,
                col as int,
                row as int,
                dx as int,
                dy as int,
                player,
                forward_count as nat,
                backward_count as nat,
            );
        }
        let count = forward_count + backward_count + 1;
        if count >= self.win {
            Some(
                (
                    (offset(col, dx, forward_count), offset(row, dy, forward_count)),
                    (offset(col, -dx, backward_count), offset(row, -dy, backward_count)),
                ),
            )
        } else {
            None
        }
    }

    /// The ends of the first winning line of `player` through `(col, row)`,
    /// the four axes tried in their fixed order.
    fn winning_line(&self, col: usize, row: usize, player: Player) -> (line: Option<
        ((usize, usize), (usize, usize)),
    >)
        requires
            self.wf(),
            col < self.size,
            row < self.size,
        ensures
            line == self@.winning_line(col as int, row as int, player),
    {
        let line = self.axis(col, row, 1, 0, player);
        if line.is_some() {
            return line;
        }
        let line = self.axis(col, row, 0, 1, player);
        if line.is_some() {
            return line;
        }
        let line = self.axis(col, row, 1, 1, player);
        if line.is_some() {
            return line;
        }
        self.axis(col, row, -1, 1, player)
    }

    /// Places the mover's mark at `(col, row)`. Nothing happens if the game
    /// is won, if the cell is taken or, with gravity, if the top cell of the
    /// column is taken. Otherwise the mark is written (with gravity, into the
    /// lowest empty cell of the column), the mover is recorded as the winner
    /// if a winning line runs through it, and the turn passes to the other
    /// player.
    pub fn place(&mut self, col: usize, row: usize)
        requires
            old(self).wf(),
            old(self)@.admits(col as int, row as int),
        ensures
            final(self)@ == old(self)@.place(col as int, row as int),
            final(self).wf(),
    {
        if self.winner.is_some() {
            return ;
        }
        assert(self@.grid[col as int] == self.grid[col as int]@);
        let mut row = row;
        if self.gravity {
            if self.grid[col][0].is_some() {
                return ;
            }
            row = self.landing_row(col);
        } else {
            if self.grid[col][row].is_some() {
                return ;
            }
        }
        let mover = self.turn;
        self.grid[col][row] = Some(mover);
        proof {
            let marked = old(self)@.marked(col as int, row as int);
            assert(self.grid[col as int]@ == old(self)@.grid[col as int].update(
                row as int,
                Some(mover),
            ));
            assert forall|c: int| 0 <= c < self.size implies #[trigger] self@.grid[c]
                == marked.grid[c] by {
                assert(old(self)@.grid[c] == old(self).grid[c]@);
            }
            assert(self@.grid =~= marked.grid);
            assert(self@ == marked);
        }
        match self.winning_line(col, row, mover) {
            Some(line) => {
                self.winner = Some((mover, line));
            },
            None => {},
        }
        self.turn = mover.opponent();
    }
    /// Whether a move at `(col, row)` addresses the grid, so that `place`
    /// may be called with it.
    pub fn can_place(&self, col: usize, row: usize) -> (ok: bool)
        ensures
            ok == self@.admits(col as int, row as int),
    {
        self.winner.is_some() || (col < self.size && (self.gravity || row < self.size))
    }

    /// A copy of the state, cell by cell.
    pub fn snapshot(&self) -> (copy: State)
        ensures
            copy@ == self@,
    {
        let mut grid: Vec<Vec<Option<Player>>> = Vec::new();
        let mut c: usize = 0;
        while c < self.grid.len()
            invariant
                c <= self.grid.len(),
                grid.len() == c,
                forall|i: int| 0 <= i < c ==> (#[trigger] grid[i])@ == self.grid[i]@,
            decreases self.grid.len() - c,
        {
            let mut column: Vec<Option<Player>> = Vec::new();
            let mut r: usize = 0;
            while r < self.grid[c].len()
                invariant
                    c < self.grid.len(),
                    r <= self.grid[c as int].len(),
                    column.len() == r,
                    forall|j: int| 0 <= j < r ==> #[trigger] column[j] == self.grid[c as int][j],
                decreases self.grid[c as int].len() - r,
            {
                column.push(self.grid[c][r]);
                r += 1;
            }
            assert(column@ =~= self.grid[c as int]@);
            grid.push(column);
            c += 1;
        }
        let copy = State {
            winner: self.winner,
            turn: self.turn,
            grid,
            size: self.size,
            win: self.win,
            gravity: self.gravity,
        };
        assert(copy@.grid =~= self@.grid);
        copy
    }
}

} // verus!
