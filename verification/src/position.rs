use crate::board::{
    b2i, cells_in_range, count_cells, count_marks, empty_board, has_line, lemma_update_cells,
    spec_update, Board,
};
use crate::notation::{lemma_parse_pairs_bounded, parse_tpgn, spec_parse_tpgn, NotationError};
use crate::player::Player;
use vstd::prelude::*;

verus! {

broadcast use vstd::array::group_array_axioms;

/// The classification of a position.
#[derive(Clone, Copy, Debug, PartialEq, Eq, Structural)]
pub enum GameState {
    /// No line is complete and an empty cell remains.
    InProgress,
    /// The opponent of the player to move has completed a line; the score,
    /// from the perspective of the player to move, is more negative the
    /// earlier the loss occurred.
    Lost(i8),
    /// The board is full and no line is complete.
    Drawn,
}

/// The score recorded for a position lost after m moves in total: an earlier
/// loss scores lower. For positions reachable through play, m lies in 5..=9
/// and the score in -3..=-1.
pub open spec fn loss_score(m: int) -> int {
    (m + 2) / 2 - 6
}

/// The state of a board on which `mover` has just placed a marker, with
/// `moves_played` moves made in total: lost (for the player now to move) when
/// the mover holds a complete line, otherwise drawn when the board is full,
/// otherwise in progress.
pub open spec fn spec_state(b: Board, mover: Player, moves_played: u8) -> GameState {
    if has_line(b, mover.spec_as_int()) {
        GameState::Lost(loss_score(moves_played as int) as i8)
    } else if moves_played == 9 {
        GameState::Drawn
    } else {
        GameState::InProgress
    }
}

/// One game position: the board, the player to move next, how many moves
/// have been made, and the cached classification of the position.
#[derive(Clone, Copy, Debug, PartialEq, Eq)]
pub struct Position {
    pub board: Board,
    pub player: Player,
    pub moves_played: u8,
    pub state: GameState,
}

/// May the player to move place a marker at (x, y)? Never in a terminal
/// (lost or drawn) position, whatever the board holds.
pub open spec fn spec_can_play(p: Position, x: int, y: int) -> bool {
    &&& p.state is InProgress
    &&& 0 <= x < 3
    &&& 0 <= y < 3
    &&& p.board[x][y] == 0
}

/// The position reached from p by the player to move placing a marker at
/// (x, y): one cell is written, the move counter is incremented, the state is
/// reclassified for the new board, and the turn passes to the other player.
pub open spec fn spec_play(p: Position, x: int, y: int) -> Position {
    let b = spec_update(p.board, x, y, p.player.spec_as_int());
    let m = (p.moves_played + 1) as u8;
    Position {
        board: b,
        player: p.player.spec_other(),
        moves_played: m,
        state: spec_state(b, p.player, m),
    }
}

/// A move list replayed from a position: each move must be legal at the
/// point it is applied, else the replay stops with IllegalMove.
pub open spec fn spec_replay(p: Position, ms: Seq<(u8, u8)>) -> Result<Position, NotationError>
    decreases ms.len(),
{
    if ms.len() == 0 {
        Ok(p)
    } else if spec_can_play(p, ms[0].0 as int, ms[0].1 as int) {
        spec_replay(spec_play(p, ms[0].0 as int, ms[0].1 as int), ms.skip(1))
    } else {
        Err(NotationError::IllegalMove)
    }
}

/// A notation string read into the position it denotes: the sentinel "R"
/// denotes the starting position (as does the empty string, whose replay is
/// empty); any other string is parsed by spec_parse_tpgn and its moves are
/// replayed in order from the starting position.
pub open spec fn spec_from_tpgn(s: Seq<char>) -> Result<Position, NotationError> {
    if s == seq!['R'] {
        Ok(Position::root())
    } else {
        match spec_parse_tpgn(s) {
            Err(e) => Err(e),
            Ok(ms) => spec_replay(Position::root(), ms),
        }
    }
}

impl Position {
    /// The starting position: empty board, Noughts to move.
    pub open spec fn root() -> Position {
        Position {
            board: empty_board(),
            player: Player::Noughts,
            moves_played: 0,
            state: GameState::InProgress,
        }
    }

    /// A structurally sound position: every cell holds a legal value, the
    /// move counter equals the number of markers on the board, the marker
    /// counts and the player to move agree with strict alternation starting
    /// from Noughts, and the cached state is the classification of the board
    /// with respect to the player who moved last.
    pub open spec fn wf(self) -> bool {
        &&& cells_in_range(self.board)
        &&& self.moves_played as int == count_marks(self.board)
        &&& count_cells(self.board, 1) == (self.moves_played as int + 1) / 2
        &&& count_cells(self.board, 2) == self.moves_played as int / 2
        &&& self.player == (if self.moves_played % 2 == 0 {
            Player::Noughts
        } else {
            Player::Crosses
        })
        &&& self.state == spec_state(self.board, self.player.spec_other(), self.moves_played)
    }

    /// The starting position: empty board, Noughts to move, no moves played,
    /// game in progress.
    pub fn new() -> (p: Position)
        ensures
            p == Position::root(),
            p.wf(),
    {
        Position {
            board: [[0u8; 3]; 3],
            player: Player::Noughts,
            moves_played: 0,
            state: GameState::InProgress,
        }
    }

    /// Parses a notation string and replays its moves in order from the
    /// starting position, returning the position reached — exactly as
    /// spec_from_tpgn describes. Succeeds if and only if the string is the
    /// sentinel "R" or a well-formed sequence of at most nine coordinate
    /// pairs, each legal at the point it is applied; the first failure
    /// decides the error, and no partial position is returned.
    pub fn from_tpgn(tpgn: &str) -> (r: Result<Position, NotationError>)
        ensures
            r == spec_from_tpgn(tpgn@),
            r matches Ok(p) ==> p.wf(),
    {
        proof {
            reveal_strlit("R");
        }
        let n = tpgn.unicode_len();
        if n == 1 && tpgn.get_char(0) == 'R' {
            proof {
                assert(tpgn@ =~= seq!['R']);
            }
            return Ok(Position::new());
        }
        proof {
            assert(tpgn@ != seq!['R']);
        }
        let moves = match parse_tpgn(tpgn) {
            Ok(ms) => ms,
            Err(e) => {
                return Err(e);
            },
        };
        proof {
            lemma_parse_pairs_bounded(tpgn@);
            assert(moves@.skip(0) =~= moves@);
        }
        let mut p = Position::new();
        let mut j: usize = 0;
        while j < moves.len()
            invariant
                p.wf(),
                j <= moves@.len(),
                tpgn@ != seq!['R'],
                spec_parse_tpgn(tpgn@) == Ok::<Seq<(u8, u8)>, NotationError>(moves@),
                forall|k: int| 0 <= k < moves@.len() ==> moves@[k].0 < 3 && moves@[k].1 < 3,
                spec_replay(Position::root(), moves@) == spec_replay(p, moves@.skip(j as int)),
            decreases moves@.len() - j,
        {
            proof {
                assert(moves@.skip(j as int)[0] == moves@[j as int]);
                assert(moves@.skip(j as int).skip(1) =~= moves@.skip(j as int + 1));
            }
            let (x, y) = moves[j];
            if !p.can_play(x as usize, y as usize) {
                return Err(NotationError::IllegalMove);
            }
            p = p.play(x as usize, y as usize);
            j = j + 1;
        }
        proof {
            assert(moves@.skip(moves@.len() as int) =~= Seq::<(u8, u8)>::empty());
        }
        Ok(p)
    }

    /// True iff the game is still in progress and cell (x, y) is empty; in a
    /// lost or drawn position no move is ever legal.
    pub fn can_play(&self, x: usize, y: usize) -> (legal: bool)
        requires
            x < 3,
            y < 3,
        ensures
            legal == spec_can_play(*self, x as int, y as int),
    {
        match self.state {
            GameState::InProgress => self.board[x][y] == 0,
            GameState::Lost(_) => false,
            GameState::Drawn => false,
        }
    }

    /// The board with the given player's marker placed at (x, y); the
    /// receiver is untouched.
    fn update_board(original_board: &Board, x: usize, y: usize, player: &Player) -> (b: Board)
        requires
            x < 3,
            y < 3,
        ensures
            b == spec_update(*original_board, x as int, y as int, player.spec_as_int()),
    {
        let mut new_board = *original_board;
        let mut row = new_board[x];
        row[y] = player.as_int();
        new_board[x] = row;
        proof {
            assert(row =~= vstd::array::spec_array_update(
                original_board[x as int],
                y as int,
                player.spec_as_int(),
            ));
            assert(new_board =~= spec_update(
                *original_board,
                x as int,
                y as int,
                player.spec_as_int(),
            ));
        }
        new_board
    }

    /// The player who moves after the given one.
    fn switch_player(player: &Player) -> (next: Player)
        ensures
            next == player.spec_other(),
    {
        match player {
            Player::Noughts => Player::Crosses,
            Player::Crosses => Player::Noughts,
        }
    }

    /// Classifies a board on which `opponent` (the opponent of the player now
    /// to move) has just placed a marker.
    fn get_state(board: &Board, opponent: &Player, moves_played: u8) -> (s: GameState)
        requires
            moves_played <= 9,
        ensures
            s == spec_state(*board, *opponent, moves_played),
    {
        let v = opponent.as_int();
        let lost = (board[0][0] == v && board[0][1] == v && board[0][2] == v) || (board[1][0] == v
            && board[1][1] == v && board[1][2] == v) || (board[2][0] == v && board[2][1] == v
            && board[2][2] == v) || (board[0][0] == v && board[1][0] == v && board[2][0] == v) || (
        board[0][1] == v && board[1][1] == v && board[2][1] == v) || (board[0][2] == v
            && board[1][2] == v && board[2][2] == v) || (board[0][0] == v && board[1][1] == v
            && board[2][2] == v) || (board[0][2] == v && board[1][1] == v && board[2][0] == v);
        if lost {
            GameState::Lost((moves_played as i8 + 2) / 2 - 6)
        } else if moves_played == 9 {
            GameState::Drawn
        } else {
            GameState::InProgress
        }
    }

    /// Playing a legal move yields exactly the position spec_play describes,
    /// and preserves structural soundness.
    pub fn play(&self, x: usize, y: usize) -> (next: Position)
        requires
            self.wf(),
            spec_can_play(*self, x as int, y as int),
        ensures
            next == spec_play(*self, x as int, y as int),
            next.wf(),
    {
        let new_board = Position::update_board(&self.board, x, y, &self.player);
        let new_player = Position::switch_player(&self.player);
        let new_moves_played = self.moves_played + 1;
        let new_state = Position::get_state(&new_board, &self.player, new_moves_played);
        proof {
            lemma_play_preserves_wf(*self, x as int, y as int);
        }
        Position {
            board: new_board,
            player: new_player,
            moves_played: new_moves_played,
            state: new_state,
        }
    }
}

/// Playing a legal move on a structurally sound position yields a
/// structurally sound position: one empty cell gains the mover's marker, so
/// all the counts, the alternation of players and the cached state stay
/// consistent. (In particular the move counter goes on matching the number of
/// non-empty cells on the board.)
#[verifier::rlimit(50)]
pub proof fn lemma_play_preserves_wf(p: Position, x: int, y: int)
    requires
        p.wf(),
        spec_can_play(p, x, y),
    ensures
        spec_play(p, x, y).wf(),
{
    let v = p.player.spec_as_int();
    lemma_update_cells(p.board, x, y, v);
    let q = spec_play(p, x, y);
    assert(cells_in_range(q.board));
    assert(count_marks(q.board) == count_marks(p.board) + 1);
    assert(count_cells(q.board, 1) == count_cells(p.board, 1) + b2i(v == 1));
    assert(count_cells(q.board, 2) == count_cells(p.board, 2) + b2i(v == 2));
    assert(q.player.spec_other() == p.player);
    assert(q.player == (if q.moves_played % 2 == 0 {
        Player::Noughts
    } else {
        Player::Crosses
    }));
}

/// In a lost or drawn position no move is legal, for every coordinate pair
/// and whatever the board holds.
pub proof fn lemma_terminal_has_no_moves(p: Position)
    requires
        !(p.state is InProgress),
    ensures
        forall|x: int, y: int| !spec_can_play(p, x, y),
{
}

/// For every structurally sound position — in particular for every position
/// reachable from the starting position through play — the move counter
/// equals the number of non-empty cells on the board.
pub proof fn lemma_moves_played_counts_marks(p: Position)
    requires
        p.wf(),
    ensures
        p.moves_played as int == count_marks(p.board),
{
}

} // verus!
