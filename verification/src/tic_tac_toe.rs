//! A small two-player board game bundled with the application: a 3-by-3
//! grid, alternating turns, win and draw detection.

use vstd::prelude::*;

verus! {

/// One of the two players.
#[derive(Debug, Clone, Copy, PartialEq, Eq, Structural)]
pub enum Player {
    X,
    O,
}

impl Player {
    /// The opposing player.
    pub open spec fn spec_other(self) -> Player {
        match self {
            Player::X => Player::O,
            Player::O => Player::X,
        }
    }

    /// The opposing player.
    pub fn other(&self) -> (r: Player)
        ensures
            r == self.spec_other(),
    {
        match self {
            Player::X => Player::O,
            Player::O => Player::X,
        }
    }
}

/// Where the game stands: still being played, won, or drawn.
#[derive(Debug, Clone, Copy, PartialEq, Eq, Structural)]
pub enum GameState {
    Playing,
    Won(Player),
    Draw,
}

/// Whether the cells `i`, `j`, `k` hold three equal marks.
pub open spec fn line_won_at(b: Seq<Option<Player>>, i: int, j: int, k: int) -> bool {
    b[i] is Some && b[i] == b[j] && b[j] == b[k]
}

/// Whether any of the eight rows, columns or diagonals is won.
pub open spec fn spec_winner_exists(b: Seq<Option<Player>>) -> bool {
    ||| line_won_at(b, 0, 1, 2)
    ||| line_won_at(b, 3, 4, 5)
    ||| line_won_at(b, 6, 7, 8)
    ||| line_won_at(b, 0, 3, 6)
    ||| line_won_at(b, 1, 4, 7)
    ||| line_won_at(b, 2, 5, 8)
    ||| line_won_at(b, 0, 4, 8)
    ||| line_won_at(b, 2, 4, 6)
}

/// Whether every cell is marked.
pub open spec fn spec_board_full(b: Seq<Option<Player>>) -> bool {
    forall|i: int| 0 <= i < 9 ==> b[i] is Some
}

/// The game: nine cells in row-major order, the player to move, and the
/// game's state.
#[derive(Debug)]
pub struct TicTacToe {
    pub board: Vec<Option<Player>>,
    pub current_player: Player,
    pub game_state: GameState,
}

impl TicTacToe {
    /// The board always has exactly nine cells.
    pub open spec fn wf(self) -> bool {
        self.board@.len() == 9
    }

    /// A fresh game: an empty board, `X` to move.
    pub fn new() -> (r: TicTacToe)
        ensures
            r.wf(),
            forall|i: int| 0 <= i < 9 ==> r.board@[i] is None,
            r.current_player == Player::X,
            r.game_state == GameState::Playing,
    {
        let board: Vec<Option<Player>> = vec![None, None, None, None, None, None, None, None, None];
        TicTacToe { board, current_player: Player::X, game_state: GameState::Playing }
    }

    /// The mark at a position, or `None` off the board.
    pub fn get_cell(&self, position: usize) -> (r: Option<Player>)
        requires
            self.wf(),
        ensures
            position < 9 ==> r == self.board@[position as int],
            position >= 9 ==> r is None,
    {
        if position < 9 {
            self.board[position]
        } else {
            None
        }
    }

    /// The player whose turn it is.
    pub fn current_player(&self) -> (r: Player)
        ensures
            r == self.current_player,
    {
        self.current_player
    }

    /// Plays the current player's mark at `position`. A move off the
    /// board, onto a marked cell, or after the game has ended is refused
    /// and changes nothing. An accepted move marks the cell and then
    /// settles the game's state: a win for the mover when it completes a
    /// line, a draw when it fills the board, and otherwise the turn
    /// passes to the other player.
    pub fn make_move(&mut self, position: usize) -> (r: bool)
        requires
            old(self).wf(),
        ensures
            final(self).wf(),
            (position >= 9 || old(self).board@[position as int] is Some || old(self).game_state
                != GameState::Playing) ==> (!r && *final(self) == *old(self)),
            (position < 9 && old(self).board@[position as int] is None && old(self).game_state
                == GameState::Playing) ==> {
                let b = old(self).board@.update(position as int, Some(old(self).current_player));
                &&& r
                &&& final(self).board@ == b
                &&& final(self).game_state == (if spec_winner_exists(b) {
                    GameState::Won(old(self).current_player)
                } else if spec_board_full(b) {
                    GameState::Draw
                } else {
                    GameState::Playing
                })
                &&& final(self).current_player == (if !spec_winner_exists(b)
                    && !spec_board_full(b) {
                    old(self).current_player.spec_other()
                } else {
                    old(self).current_player
                })
            },
    {
        if position >= 9 || self.board[position].is_some() || self.game_state
            != GameState::Playing {
            return false;
        }
        self.board.set(position, Some(self.current_player));
        if self.check_winner() {
            self.game_state = GameState::Won(self.current_player);
        } else if self.is_board_full() {
            self.game_state = GameState::Draw;
        } else {
            self.current_player = self.current_player.other();
        }
        true
    }

    /// Whether three equal marks stand on the given line.
    fn line_won(&self, a: usize, b: usize, c: usize) -> (r: bool)
        requires
            self.wf(),
            a < 9 && b < 9 && c < 9,
        ensures
            r == line_won_at(self.board@, a as int, b as int, c as int),
    {
        if let (Some(x), Some(y), Some(z)) = (self.board[a], self.board[b], self.board[c]) {
            x == y && y == z
        } else {
            false
        }
    }

    /// Whether any line of the board is won.
    fn check_winner(&self) -> (r: bool)
        requires
            self.wf(),
        ensures
            r == spec_winner_exists(self.board@),
    {
        self.line_won(0, 1, 2) || self.line_won(3, 4, 5) || self.line_won(6, 7, 8) || self.line_won(
            0,
            3,
            6,
        ) || self.line_won(1, 4, 7) || self.line_won(2, 5, 8) || self.line_won(0, 4, 8)
            || self.line_won(2, 4, 6)
    }

    /// Whether every cell is marked.
    fn is_board_full(&self) -> (r: bool)
        requires
            self.wf(),
        ensures
            r == spec_board_full(self.board@),
    {
        let mut i: usize = 0;
        while i < 9
            invariant
                i <= 9,
                self.wf(),
                forall|j: int| 0 <= j < i ==> self.board@[j] is Some,
            decreases 9 - i,
        {
            if self.board[i].is_none() {
                return false;
            }
            i = i + 1;
        }
        true
    }

    /// Starts the game over: an empty board, `X` to move.
    pub fn reset(&mut self)
        ensures
            final(self).wf(),
            forall|i: int| 0 <= i < 9 ==> final(self).board@[i] is None,
            final(self).current_player == Player::X,
            final(self).game_state == GameState::Playing,
    {
        self.board = vec![None, None, None, None, None, None, None, None, None];
        self.current_player = Player::X;
        self.game_state = GameState::Playing;
    }
}

} // verus!
