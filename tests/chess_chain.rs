use turn_chain::chain::new_game;
use turn_chain::reconstruct::reconstruct;
use turn_chain::validate::validate_move;
use turn_chain::chess_game::{
    create_game, game_result, make_move, ChessGame, ChessGameMove, ChessOutcome, MakeMoveInput,
};
use turn_chain::records::{GameEntry, GameError, MoveEntry, StoredMove};

const START_POSITION: &str = "rnbqkbnr/pppppppp/8/8/8/8/PPPPPPPP/RNBQKBNR w KQkq - 0 1";
const WHITE: u64 = 11;
const BLACK: u64 = 22;
const GAME: u64 = 500;

fn game() -> GameEntry {
    create_game(WHITE, BLACK, 1_600_000_000_000).unwrap()
}

fn place(from: &str, to: &str) -> ChessGameMove {
    ChessGameMove::PlacePiece { from: from.to_string(), to: to.to_string() }
}

fn entry(author: u64, mv: ChessGameMove, previous: Option<u64>) -> MoveEntry<ChessGameMove> {
    MoveEntry { game_hash: GAME, author_pub_key: author, game_move: mv, previous_move_hash: previous }
}

fn stored(address: u64, author: u64, mv: ChessGameMove, previous: Option<u64>) -> StoredMove<ChessGameMove> {
    StoredMove { address, entry: entry(author, mv, previous) }
}

fn validate(
    moves: &Vec<StoredMove<ChessGameMove>>,
    candidate: &MoveEntry<ChessGameMove>,
) -> Result<ChessGame, GameError> {
    validate_move::<ChessGameMove, ChessGame>(&game(), GAME, false, moves, candidate, None)
}

fn rebuild(moves: &Vec<StoredMove<ChessGameMove>>) -> Result<(ChessGame, Option<u64>), GameError> {
    reconstruct::<ChessGameMove, ChessGame>(&game(), GAME, moves)
}

#[test]
fn create_game_orders_opponent_first() {
    let g = game();
    assert_eq!(g.players, vec![WHITE, BLACK]);
    assert_eq!(g.created_at, 1_600_000_000_000);
}

#[test]
fn wrong_player_count_is_refused() {
    let r = new_game::<ChessGameMove, ChessGame>(vec![WHITE, BLACK, 33], 0);
    assert_eq!(r.unwrap_err(), GameError::InvalidPlayerCount);
    let r = new_game::<ChessGameMove, ChessGame>(vec![WHITE], 0);
    assert_eq!(r.unwrap_err(), GameError::InvalidPlayerCount);
    let one = GameEntry { players: vec![WHITE], created_at: 0 };
    let r = reconstruct::<ChessGameMove, ChessGame>(&one, GAME, &vec![]);
    assert_eq!(r.unwrap_err(), GameError::InvalidPlayerCount);
}

#[test]
fn new_game_has_no_winner() {
    let (state, winner) = rebuild(&vec![]).unwrap();
    assert_eq!(winner, None);
    assert_eq!(state.current_position(), START_POSITION.to_string());
    assert_eq!(state.white_address(), WHITE);
    assert_eq!(state.black_address(), BLACK);
    assert!(state.outcome().is_none());
}

#[test]
fn opening_moves_then_out_of_turn() {
    let mut moves = vec![];
    let m0 = entry(WHITE, place("e2", "e4"), None);
    let s0 = validate(&moves, &m0).unwrap();
    assert_ne!(s0.current_position(), START_POSITION.to_string());
    moves.push(StoredMove { address: 1, entry: m0 });
    let m1 = entry(BLACK, place("e7", "e5"), Some(1));
    assert!(validate(&moves, &m1).is_ok());
    moves.push(StoredMove { address: 2, entry: m1 });
    let m2 = entry(BLACK, place("e7", "e5"), Some(2));
    assert_eq!(validate(&moves, &m2).unwrap_err(), GameError::OutOfTurn);
}

#[test]
fn first_move_by_black_is_out_of_turn() {
    let m0 = entry(BLACK, place("e7", "e5"), None);
    assert_eq!(validate(&vec![], &m0).unwrap_err(), GameError::OutOfTurn);
}

#[test]
fn resignation_by_black_makes_white_win() {
    let moves = vec![stored(1, WHITE, place("e2", "e4"), None)];
    let m1 = entry(BLACK, ChessGameMove::Resign, Some(1));
    let state = validate(&moves, &m1).unwrap();
    assert_eq!(state.outcome(), Some(ChessOutcome::BlackResigns));
    let mut all = moves.clone();
    all.push(StoredMove { address: 2, entry: m1 });
    let (_, winner) = rebuild(&all).unwrap();
    assert_eq!(winner, Some(WHITE));
    let res = game_result(GAME, &game(), &state).unwrap();
    assert_eq!(res.winner, Some(WHITE));
    assert_eq!(res.white_player, WHITE);
    assert_eq!(res.black_player, BLACK);
}

#[test]
fn resignation_by_white_makes_black_win() {
    let m0 = entry(WHITE, ChessGameMove::Resign, None);
    let state = validate(&vec![], &m0).unwrap();
    let (_, winner) = rebuild(&vec![StoredMove { address: 1, entry: m0 }]).unwrap();
    assert_eq!(winner, Some(BLACK));
    assert_eq!(state.outcome(), Some(ChessOutcome::WhiteResigns));
}

#[test]
fn competing_successors_are_a_fork() {
    let m0 = stored(1, WHITE, place("e2", "e4"), None);
    let a = entry(BLACK, place("e7", "e5"), Some(1));
    let b = entry(BLACK, place("d7", "d5"), Some(1));
    // each alone is accepted
    assert!(validate(&vec![m0.clone()], &a).is_ok());
    assert!(validate(&vec![m0.clone()], &b).is_ok());
    // the second one seen is refused
    let seen_a = vec![m0.clone(), StoredMove { address: 2, entry: a.clone() }];
    match validate(&seen_a, &b) {
        Err(GameError::Fork(list)) => assert!(list.contains(&2)),
        other => panic!("expected a fork, got {:?}", other.map(|s| s.current_position())),
    }
    // reconstruction reports both
    let all = vec![m0, StoredMove { address: 2, entry: a }, StoredMove { address: 3, entry: b }];
    match rebuild(&all) {
        Err(GameError::Fork(mut list)) => {
            list.sort();
            assert_eq!(list, vec![2, 3]);
        }
        other => panic!("expected a fork, got {:?}", other.map(|s| s.1)),
    }
}

#[test]
fn pointing_at_a_non_terminal_move_is_a_fork() {
    let moves = vec![stored(1, WHITE, place("e2", "e4"), None), stored(2, BLACK, place("e7", "e5"), Some(1))];
    let late = entry(BLACK, place("d7", "d5"), Some(1));
    assert!(matches!(validate(&moves, &late), Err(GameError::Fork(_))));
    let second_first = entry(WHITE, place("d2", "d4"), None);
    assert!(matches!(validate(&moves, &second_first), Err(GameError::Fork(_))));
}

#[test]
fn revalidating_a_stored_move_accepts_it() {
    let m0 = stored(1, WHITE, place("e2", "e4"), None);
    let r = validate_move::<ChessGameMove, ChessGame>(&game(), GAME, false, &vec![m0.clone()], &m0.entry, Some(1));
    assert!(r.is_ok());
}

#[test]
fn move_after_result_is_refused() {
    let moves = vec![stored(1, WHITE, place("e2", "e4"), None)];
    let m1 = entry(BLACK, place("e7", "e5"), Some(1));
    let r = validate_move::<ChessGameMove, ChessGame>(&game(), GAME, true, &moves, &m1, None);
    assert_eq!(r.unwrap_err(), GameError::GameAlreadyConcluded);
}

#[test]
fn move_after_resignation_is_refused_by_the_rules() {
    let moves = vec![stored(1, WHITE, place("e2", "e4"), None), stored(2, BLACK, ChessGameMove::Resign, Some(1))];
    let m2 = entry(WHITE, place("d2", "d4"), Some(2));
    assert_eq!(validate(&moves, &m2).unwrap_err(), GameError::GameAlreadyConcluded);
    let m2 = entry(WHITE, ChessGameMove::Resign, Some(2));
    assert_eq!(validate(&moves, &m2).unwrap_err(), GameError::GameAlreadyConcluded);
}

#[test]
fn malformed_and_illegal_moves() {
    let bad = entry(WHITE, place("z9", "e4"), None);
    assert_eq!(validate(&vec![], &bad).unwrap_err(), GameError::MalformedPayload);
    let short = entry(WHITE, place("e2", "e"), None);
    assert_eq!(validate(&vec![], &short).unwrap_err(), GameError::MalformedPayload);
    let illegal = entry(WHITE, place("e2", "e5"), None);
    assert_eq!(validate(&vec![], &illegal).unwrap_err(), GameError::IllegalMove);
    let black_piece = entry(WHITE, place("e7", "e5"), None);
    assert_eq!(validate(&vec![], &black_piece).unwrap_err(), GameError::IllegalMove);
}

#[test]
fn unknown_author_is_refused() {
    let m0 = entry(99, place("e2", "e4"), None);
    assert_eq!(validate(&vec![], &m0).unwrap_err(), GameError::UnknownAuthor);
}

#[test]
fn broken_pointers_are_refused() {
    let moves = vec![stored(1, WHITE, place("e2", "e4"), None)];
    let dangling = entry(BLACK, place("e7", "e5"), Some(77));
    assert_eq!(validate(&moves, &dangling).unwrap_err(), GameError::BrokenChainPointer);
    let mut other_game = entry(BLACK, place("e7", "e5"), Some(1));
    other_game.game_hash = GAME + 1;
    assert_eq!(validate(&moves, &other_game).unwrap_err(), GameError::BrokenChainPointer);
    let gap = vec![stored(1, WHITE, place("e2", "e4"), None), stored(3, WHITE, place("d2", "d4"), Some(2))];
    assert_eq!(rebuild(&gap).unwrap_err(), GameError::BrokenChainPointer);
    let cycle = vec![stored(1, WHITE, place("e2", "e4"), Some(2)), stored(2, BLACK, place("e7", "e5"), Some(1))];
    assert_eq!(rebuild(&cycle).unwrap_err(), GameError::BrokenChainPointer);
}

#[test]
fn corrupted_chain_is_reported() {
    let moves = vec![stored(1, WHITE, place("e2", "e5"), None)];
    assert_eq!(rebuild(&moves).unwrap_err(), GameError::CorruptedChain);
    let next = entry(BLACK, place("e7", "e5"), Some(1));
    assert_eq!(validate(&moves, &next).unwrap_err(), GameError::CorruptedChain);
}

#[test]
fn reconstruction_is_deterministic_and_order_free() {
    let a = vec![
        stored(1, WHITE, place("e2", "e4"), None),
        stored(2, BLACK, place("e7", "e5"), Some(1)),
        stored(3, WHITE, place("g1", "f3"), Some(2)),
    ];
    let mut b = a.clone();
    b.reverse();
    let (sa, wa) = rebuild(&a).unwrap();
    let (sb, wb) = rebuild(&b).unwrap();
    assert_eq!(sa.current_position(), sb.current_position());
    assert_eq!(sa.outcome(), sb.outcome());
    assert_eq!(wa, wb);
    let (sa2, _) = rebuild(&a).unwrap();
    assert_eq!(sa.current_position(), sa2.current_position());
}

#[test]
fn fools_mate_makes_black_win() {
    let moves = vec![
        stored(1, WHITE, place("f2", "f3"), None),
        stored(2, BLACK, place("e7", "e5"), Some(1)),
        stored(3, WHITE, place("g2", "g4"), Some(2)),
        stored(4, BLACK, place("d8", "h4"), Some(3)),
    ];
    let (state, winner) = rebuild(&moves).unwrap();
    assert_eq!(state.outcome(), Some(ChessOutcome::BlackCheckmates));
    assert_eq!(winner, Some(BLACK));
    let res = game_result(GAME, &game(), &state).unwrap();
    assert_eq!(res.final_position, state.current_position());
    let after = entry(WHITE, place("a2", "a3"), Some(4));
    assert_eq!(validate(&moves, &after).unwrap_err(), GameError::GameAlreadyConcluded);
}

#[test]
fn game_in_progress_has_no_result() {
    let moves = vec![stored(1, WHITE, place("e2", "e4"), None)];
    let (state, winner) = rebuild(&moves).unwrap();
    assert_eq!(winner, None);
    assert!(game_result(GAME, &game(), &state).is_none());
}

#[test]
fn make_move_builds_the_entry() {
    let input = MakeMoveInput { game_hash: GAME, previous_move_hash: None, game_move: place("e2", "e4") };
    let (e, state) = make_move(&game(), false, &vec![], WHITE, input).unwrap();
    assert_eq!(e.author_pub_key, WHITE);
    assert_eq!(e.game_hash, GAME);
    assert_eq!(e.previous_move_hash, None);
    assert!(state.outcome().is_none());
    let input = MakeMoveInput { game_hash: GAME, previous_move_hash: None, game_move: place("d2", "d4") };
    let stored_e = vec![StoredMove { address: 1, entry: e }];
    assert!(matches!(make_move(&game(), false, &stored_e, WHITE, input), Err(GameError::Fork(_))));
    let input = MakeMoveInput { game_hash: GAME, previous_move_hash: Some(1), game_move: ChessGameMove::Resign };
    assert_eq!(make_move(&game(), true, &stored_e, BLACK, input).unwrap_err(), GameError::GameAlreadyConcluded);
}

#[test]
fn square_name_followed_by_other_text_is_read() {
    let m0 = entry(WHITE, place("e2\u{e9}", "e4 "), None);
    assert!(validate(&vec![], &m0).is_ok());
    let single = entry(WHITE, place("\u{e9}", "e4"), None);
    assert_eq!(validate(&vec![], &single).unwrap_err(), GameError::MalformedPayload);
}

#[test]
fn validation_is_repeatable() {
    let moves = vec![stored(1, WHITE, place("e2", "e4"), None)];
    let m1 = entry(BLACK, place("e7", "e5"), Some(1));
    let a = validate(&moves, &m1).unwrap();
    let b = validate(&moves, &m1).unwrap();
    assert_eq!(a.current_position(), b.current_position());
    let bad = entry(WHITE, place("e7", "e5"), Some(1));
    assert_eq!(validate(&moves, &bad).unwrap_err(), validate(&moves, &bad).unwrap_err());
}
