use vstd::prelude::*;
use std::str::FromStr;
use chess::{Board, BoardStatus, ChessMove, Square};
use crate::records::{AgentId, EntryAddress, GameEntry, GameError, MoveEntry, StoredMove};
use crate::rules::{RuleViolation, TurnBasedGame};
use crate::chain::{new_game, replay};
use crate::validate::{validate_move, verdict};

verus! {

/// How a chess game ended.
#[derive(Clone, Copy, Debug, PartialEq, Eq, Structural)]
pub enum ChessOutcome {
    WhiteCheckmates,
    BlackCheckmates,
    WhiteResigns,
    BlackResigns,
    Stalemate,
}

/// A chess game in progress: the two players, the board, and how the game
/// ended once it has.
///
/// The board is the standard starting position (`None`) or text that
/// chess's `Board` wrote after a move; only this module makes it.
#[derive(Debug)]
pub struct ChessGame {
    white_address: AgentId,
    black_address: AgentId,
    position: Option<String>,
    outcome: Option<ChessOutcome>,
}

/// The mathematical content of a [`ChessGame`].
pub struct ChessGameView {
    pub white_address: AgentId,
    pub black_address: AgentId,
    /// `None` for the starting position, else the board's text.
    pub position: Option<Seq<char>>,
    pub outcome: Option<ChessOutcome>,
}

/// The text of a board, if the game has left the starting position.
pub open spec fn text_of(position: Option<String>) -> Option<Seq<char>> {
    match position {
        Some(t) => Some(t@),
        None => None,
    }
}

impl View for ChessGame {
    type V = ChessGameView;

    closed spec fn view(&self) -> ChessGameView {
        ChessGameView {
            white_address: self.white_address,
            black_address: self.black_address,
            position: text_of(self.position),
            outcome: self.outcome,
        }
    }
}

impl ChessGame {
    /// Every board text held was written by chess's `Board`.
    #[verifier::type_invariant]
    spec fn boards_only(self) -> bool {
        self.position matches Some(t) ==> is_board(t@)
    }

    pub fn white_address(&self) -> (r: AgentId)
        ensures
            r == self@.white_address,
    {
        self.white_address
    }

    pub fn black_address(&self) -> (r: AgentId)
        ensures
            r == self@.black_address,
    {
        self.black_address
    }

    pub fn outcome(&self) -> (r: Option<ChessOutcome>)
        ensures
            r == self@.outcome,
    {
        self.outcome
    }

    /// The board, in Forsyth-Edwards notation.
    pub fn current_position(&self) -> (r: String)
        ensures
            self@.position matches Some(t) ==> r@ == t,
    {
        match &self.position {
            Some(t) => t.clone(),
            None => start_position(),
        }
    }
}

/// A chess move payload: a piece moved from one square to another (named
/// like "e2"; no promotion piece), or a resignation.
#[derive(Clone, Debug)]
pub enum ChessGameMove {
    PlacePiece { from: String, to: String },
    Resign,
}

/// What a player submits to move in a game.
#[derive(Clone, Debug)]
pub struct MakeMoveInput {
    pub game_hash: EntryAddress,
    pub previous_move_hash: Option<EntryAddress>,
    pub game_move: ChessGameMove,
}

/// The index of the square named by the first two characters of `s`
/// (`rank * 8 + file`, "a1" being 0), if they name one.
pub open spec fn square_of(s: Seq<char>) -> Option<u8> {
    if s.len() >= 2 && 'a' <= s[0] <= 'h' && '1' <= s[1] <= '8' {
        Some(((s[1] as u32 - '1' as u32) * 8 + (s[0] as u32 - 'a' as u32)) as u8)
    } else {
        None
    }
}

/// The text is a board as chess's `Board` writes it.
pub uninterp spec fn is_board(text: Seq<char>) -> bool;

/// Whether moving the piece on one square to the other is legal on the
/// board (`None`: the starting position).
pub uninterp spec fn legal_in(position: Option<Seq<char>>, from: u8, to: u8) -> bool;

/// The board after a legal move.
pub uninterp spec fn position_after(position: Option<Seq<char>>, from: u8, to: u8) -> Seq<char>;

/// The status of a board: 0 ongoing, 1 stalemate, 2 checkmate.
pub uninterp spec fn status_of(position: Seq<char>) -> u8;

/// Relies on chess's `Square::from_str` and `Square::to_index`: the index of
/// the square named by the first two characters.
#[verifier::external_body]
fn parse_square(s: &str) -> (r: Option<u8>)
    requires
        s@.len() >= 2,
    ensures
        r == square_of(s@),
{
    match Square::from_str(s) {
        Ok(sq) => Some(sq.to_index() as u8),
        Err(_) => None,
    }
}

/// Relies on chess's `Board::default` and its `Display`: the text of the
/// starting position.
#[verifier::external_body]
fn start_position() -> (r: String)
    ensures
        is_board(r@),
{
    Board::default().to_string()
}

/// Relies on chess's `Board::legal`, the board being `Board::default` or read
/// with `Board::from_str`: whether the move between the two squares, without
/// promotion, is legal.
#[verifier::external_body]
fn is_legal(position: &Option<String>, from: u8, to: u8) -> (r: bool)
    requires
        from < 64,
        to < 64,
        position matches Some(t) ==> is_board(t@),
    ensures
        r == legal_in(text_of(*position), from, to),
{
    let board = match position {
        Some(t) => match Board::from_str(t) {
            Ok(b) => b,
            Err(_) => return false,
        },
        None => Board::default(),
    };
    board.legal(ChessMove::new(chess::ALL_SQUARES[from as usize], chess::ALL_SQUARES[to as usize], None))
}

/// Relies on chess's `Board::make_move_new`, the board being `Board::default`
/// or read with `Board::from_str`, and written back with its `Display`: the
/// board after a legal move.
#[verifier::external_body]
fn play(position: &Option<String>, from: u8, to: u8) -> (r: String)
    requires
        from < 64,
        to < 64,
        position matches Some(t) ==> is_board(t@),
        legal_in(text_of(*position), from, to),
    ensures
        r@ == position_after(text_of(*position), from, to),
        is_board(r@),
{
    let board = match position {
        Some(t) => match Board::from_str(t) {
            Ok(b) => b,
            Err(_) => return t.clone(),
        },
        None => Board::default(),
    };
    board.make_move_new(ChessMove::new(chess::ALL_SQUARES[from as usize], chess::ALL_SQUARES[to as usize], None)).to_string()
}

/// Relies on chess's `Board::status`, the board read with `Board::from_str`.
#[verifier::external_body]
fn position_status(position: &str) -> (r: u8)
    requires
        is_board(position@),
    ensures
        r == status_of(position@),
{
    match Board::from_str(position) {
        Ok(board) => match board.status() {
            BoardStatus::Ongoing => 0,
            BoardStatus::Stalemate => 1,
            BoardStatus::Checkmate => 2,
        },
        Err(_) => 0,
    }
}

/// How the game stands after the player at `author_index` (0 plays white)
/// moved into a position of the given status.
pub open spec fn outcome_after_move(status: u8, author_index: nat) -> Option<ChessOutcome> {
    if status == 2 {
        if author_index == 0 {
            Some(ChessOutcome::WhiteCheckmates)
        } else {
            Some(ChessOutcome::BlackCheckmates)
        }
    } else if status == 1 {
        Some(ChessOutcome::Stalemate)
    } else {
        None
    }
}

fn outcome_after(status: u8, author_index: usize) -> (r: Option<ChessOutcome>)
    ensures
        r == outcome_after_move(status, author_index as nat),
{
    if status == 2 {
        if author_index == 0 {
            Some(ChessOutcome::WhiteCheckmates)
        } else {
            Some(ChessOutcome::BlackCheckmates)
        }
    } else if status == 1 {
        Some(ChessOutcome::Stalemate)
    } else {
        None
    }
}

/// Whether `s` has at least two characters.
fn has_two_chars(s: &str) -> (r: bool)
    ensures
        r == (s@.len() >= 2),
{
    broadcast use vstd::string::axiom_spec_iter, vstd::string::next_postcondition;

    let mut it = s.chars();
    let a = it.next();
    let b = it.next();
    a.is_some() && b.is_some()
}

fn read_square(s: &String) -> (r: Option<u8>)
    ensures
        r == square_of(s@),
        r matches Some(i) ==> i < 64,
{
    let t = s.as_str();
    if has_two_chars(t) {
        parse_square(t)
    } else {
        None
    }
}

impl TurnBasedGame<ChessGameMove> for ChessGame {
    open spec fn min_players_spec() -> Option<usize> {
        Some(2)
    }

    open spec fn max_players_spec() -> Option<usize> {
        Some(2)
    }

    open spec fn initial_spec(players: Seq<u64>) -> ChessGameView {
        ChessGameView {
            white_address: players[0],
            black_address: players[1],
            position: None,
            outcome: None,
        }
    }

    open spec fn apply_spec(state: ChessGameView, m: ChessGameMove, players: Seq<u64>, author_index: nat) -> Result<ChessGameView, RuleViolation> {
        match m {
            ChessGameMove::PlacePiece { from, to } => match (square_of(from@), square_of(to@)) {
                (Some(f), Some(t)) => if state.outcome is Some {
                    Err(RuleViolation::Finished)
                } else if legal_in(state.position, f, t) {
                    let next = position_after(state.position, f, t);
                    Ok(ChessGameView {
                        position: Some(next),
                        outcome: outcome_after_move(status_of(next), author_index),
                        ..state
                    })
                } else {
                    Err(RuleViolation::Illegal)
                },
                _ => Err(RuleViolation::Malformed),
            },
            ChessGameMove::Resign => if state.outcome is Some {
                Err(RuleViolation::Finished)
            } else {
                Ok(ChessGameView {
                    outcome: Some(if author_index == 0 { ChessOutcome::WhiteResigns } else { ChessOutcome::BlackResigns }),
                    ..state
                })
            },
        }
    }

    open spec fn winner_spec(state: ChessGameView, players: Seq<u64>) -> Option<u64> {
        match state.outcome {
            Some(ChessOutcome::WhiteCheckmates) | Some(ChessOutcome::BlackResigns) => Some(players[0]),
            Some(ChessOutcome::BlackCheckmates) | Some(ChessOutcome::WhiteResigns) => Some(players[1]),
            _ => None,
        }
    }

    fn min_players() -> (r: Option<usize>) {
        Some(2)
    }

    fn max_players() -> (r: Option<usize>) {
        Some(2)
    }

    fn initial(players: &Vec<u64>) -> (r: ChessGame) {
        ChessGame {
            white_address: players[0],
            black_address: players[1],
            position: None,
            outcome: None,
        }
    }

    fn apply_move(&mut self, m: &ChessGameMove, players: &Vec<u64>, author_index: usize) -> (r: Result<(), RuleViolation>) {
        proof {
            use_type_invariant(&*self);
        }
        match m {
            ChessGameMove::PlacePiece { from, to } => {
                let f = match read_square(from) {
                    Some(f) => f,
                    None => {
                        return Err(RuleViolation::Malformed);
                    },
                };
                let t = match read_square(to) {
                    Some(t) => t,
                    None => {
                        return Err(RuleViolation::Malformed);
                    },
                };
                if self.outcome.is_some() {
                    return Err(RuleViolation::Finished);
                }
                if !is_legal(&self.position, f, t) {
                    return Err(RuleViolation::Illegal);
                }
                let next = play(&self.position, f, t);
                let status = position_status(next.as_str());
                self.outcome = outcome_after(status, author_index);
                self.position = Some(next);
                Ok(())
            },
            ChessGameMove::Resign => {
                if self.outcome.is_some() {
                    return Err(RuleViolation::Finished);
                }
                self.outcome = Some(if author_index == 0 { ChessOutcome::WhiteResigns } else { ChessOutcome::BlackResigns });
                Ok(())
            },
        }
    }

    fn get_winner(&self, players: &Vec<u64>) -> (r: Option<u64>) {
        match self.outcome {
            Some(ChessOutcome::WhiteCheckmates) | Some(ChessOutcome::BlackResigns) => Some(players[0]),
            Some(ChessOutcome::BlackCheckmates) | Some(ChessOutcome::WhiteResigns) => Some(players[1]),
            _ => None,
        }
    }
}

/// A new game: no moves have been played, and nobody has won.
pub proof fn lemma_initial_has_no_winner(players: Seq<AgentId>)
    requires
        players.len() == 2,
    ensures
        replay::<ChessGameMove, ChessGame>(players, Seq::empty()) == Some(ChessGame::initial_spec(players)),
        ChessGame::winner_spec(ChessGame::initial_spec(players), players) is None,
{
}

/// The record of a game between `opponent`, who plays white, and `me`.
pub fn create_game(opponent: AgentId, me: AgentId, created_at: i64) -> (r: Result<GameEntry, GameError>)
    ensures
        r matches Ok(g) && g.players@ == seq![opponent, me] && g.created_at == created_at,
{
    let mut players: Vec<AgentId> = Vec::new();
    players.push(opponent);
    players.push(me);
    assert(players@ =~= seq![opponent, me]);
    new_game::<ChessGameMove, ChessGame>(players, created_at)
}

/// Checks the move that `author` submits against the game and the moves of
/// it held so far; on acceptance returns the entry to publish and the state
/// after the move.
pub fn make_move(
    game: &GameEntry,
    result_published: bool,
    moves: &Vec<StoredMove<ChessGameMove>>,
    author: AgentId,
    input: MakeMoveInput,
) -> (r: Result<(MoveEntry<ChessGameMove>, ChessGame), GameError>)
    ensures
        verdict::<ChessGameMove, ChessGame>(
            game.players@,
            input.game_hash,
            result_published,
            moves@,
            (MoveEntry {
                game_hash: input.game_hash,
                author_pub_key: author,
                game_move: input.game_move,
                previous_move_hash: input.previous_move_hash,
            }),
            None,
            match r {
                Ok((_, s)) => Ok(s@),
                Err(x) => Err(x),
            },
        ),
        r matches Ok((e, _)) ==> e == (MoveEntry {
            game_hash: input.game_hash,
            author_pub_key: author,
            game_move: input.game_move,
            previous_move_hash: input.previous_move_hash,
        }),
{
    let entry = MoveEntry {
        game_hash: input.game_hash,
        author_pub_key: author,
        game_move: input.game_move,
        previous_move_hash: input.previous_move_hash,
    };
    match validate_move::<ChessGameMove, ChessGame>(game, input.game_hash, result_published, moves, &entry, None) {
        Ok(state) => Ok((entry, state)),
        Err(e) => Err(e),
    }
}

/// The record that ends a game.
#[derive(Clone, Debug)]
pub struct ChessGameResult {
    pub game_hash: EntryAddress,
    pub white_player: AgentId,
    pub black_player: AgentId,
    pub winner: Option<AgentId>,
    /// The final board, in Forsyth-Edwards notation.
    pub final_position: String,
}

/// The result record of the game at `game_hash` in `state`, once it has ended.
pub fn game_result(game_hash: EntryAddress, game: &GameEntry, state: &ChessGame) -> (r: Option<ChessGameResult>)
    requires
        game.players@.len() == 2,
    ensures
        r is Some <==> state@.outcome is Some,
        r matches Some(res) ==> {
            &&& res.game_hash == game_hash
            &&& res.white_player == game.players@[0]
            &&& res.black_player == game.players@[1]
            &&& res.winner == ChessGame::winner_spec(state@, game.players@)
            &&& (state@.position matches Some(t) ==> res.final_position@ == t)
        },
{
    if state.outcome.is_none() {
        return None;
    }
    Some(ChessGameResult {
        game_hash,
        white_player: game.players[0],
        black_player: game.players[1],
        winner: state.get_winner(&game.players),
        final_position: state.current_position(),
    })
}

} // verus!
