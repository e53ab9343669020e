use vstd::prelude::*;
use crate::chain::{
    author_index, extends_chain, find_move, is_sibling, linked, on_turn, refused_by_rules, replay,
    replay_chain, tip, entries,
};
use crate::records::{AgentId, EntryAddress, GameEntry, GameError, MoveEntry, StoredMove};
use crate::rules::{check_player_count, player_count_ok, RuleViolation, TurnBasedGame};

verus! {

/// No two stored moves share an address.
pub open spec fn unique_addresses<M>(moves: Seq<StoredMove<M>>) -> bool {
    forall|i: int, j: int|
        0 <= i < moves.len() && 0 <= j < moves.len() && i != j ==> #[trigger] moves[i].address
            != #[trigger] moves[j].address
}

proof fn lemma_linked_distinct_at<M>(moves: Seq<StoredMove<M>>, game: EntryAddress, c: Seq<usize>, k: int, j: int)
    requires
        linked(moves, game, c),
        unique_addresses(moves),
        0 <= k < j < c.len(),
    ensures
        c[k] != c[j],
    decreases k,
{
    if k > 0 && c[k] == c[j] {
        assert(moves[c[k] as int].entry.previous_move_hash == Some(moves[c[k - 1] as int].address));
        assert(moves[c[j] as int].entry.previous_move_hash == Some(moves[c[j - 1] as int].address));
        lemma_linked_distinct_at(moves, game, c, k - 1, j - 1);
    }
    if k == 0 {
        assert(moves[c[j] as int].entry.previous_move_hash == Some(moves[c[j - 1] as int].address));
    }
}

/// A chain from the first move visits each stored move at most once, so it is
/// no longer than the stored moves.
proof fn lemma_linked_len<M>(moves: Seq<StoredMove<M>>, game: EntryAddress, c: Seq<usize>)
    requires
        linked(moves, game, c),
        unique_addresses(moves),
    ensures
        c.len() <= moves.len(),
{
    let ci = c.map_values(|x: usize| x as int);
    assert forall|k: int, j: int| 0 <= k < ci.len() && 0 <= j < ci.len() && k != j implies ci[k] != ci[j] by {
        if k < j {
            lemma_linked_distinct_at(moves, game, c, k, j);
        } else {
            lemma_linked_distinct_at(moves, game, c, j, k);
        }
    }
    ci.unique_seq_to_set();
    vstd::set_lib::lemma_int_range(0, moves.len() as int);
    assert forall|x: int| ci.to_set().contains(x) implies vstd::set_lib::set_int_range(0, moves.len() as int).contains(x) by {
        let k = choose|k: int| 0 <= k < ci.len() && ci[k] == x;
        assert(c[k] < moves.len());
    }
    vstd::set_lib::lemma_len_subset(ci.to_set(), vstd::set_lib::set_int_range(0, moves.len() as int));
}

/// A walk back from `tip(c)` along previous-move pointers, with unique
/// addresses, retraces the end of `c`.
proof fn lemma_walk_retraces_at<M>(moves: Seq<StoredMove<M>>, game: EntryAddress, c: Seq<usize>, w: Seq<usize>, j: int)
    requires
        linked(moves, game, c),
        unique_addresses(moves),
        c.len() > 0,
        w.len() > 0,
        forall|k: int| 0 <= k < w.len() ==> #[trigger] w[k] < moves.len(),
        forall|k: int|
            0 < k < w.len() ==> moves[#[trigger] w[k] as int].entry.previous_move_hash == Some(
                moves[w[k - 1] as int].address,
            ),
        tip(moves, w) == tip(moves, c),
        0 <= j < w.len(),
        j < c.len(),
    ensures
        w[w.len() - 1 - j] == c[c.len() - 1 - j],
    decreases j,
{
    if j > 0 {
        lemma_walk_retraces_at(moves, game, c, w, j - 1);
        let a = w.len() - j;
        let b = c.len() - j;
        assert(moves[w[a] as int].entry.previous_move_hash == Some(moves[w[a - 1] as int].address));
        assert(moves[c[b] as int].entry.previous_move_hash == Some(moves[c[b - 1] as int].address));
    }
}

proof fn lemma_walk_retraces<M>(moves: Seq<StoredMove<M>>, game: EntryAddress, c: Seq<usize>, w: Seq<usize>)
    requires
        linked(moves, game, c),
        unique_addresses(moves),
        c.len() > 0,
        w.len() > 0,
        forall|k: int| 0 <= k < w.len() ==> #[trigger] w[k] < moves.len(),
        forall|k: int|
            0 < k < w.len() ==> moves[#[trigger] w[k] as int].entry.previous_move_hash == Some(
                moves[w[k - 1] as int].address,
            ),
        tip(moves, w) == tip(moves, c),
    ensures
        w.len() <= c.len(),
        forall|j: int| 0 <= j < w.len() ==> w[w.len() - 1 - j] == #[trigger] c[c.len() - 1 - j],
{
    if w.len() > c.len() {
        let j = c.len() - 1;
        lemma_walk_retraces_at(moves, game, c, w, j);
        let a = w.len() - 1 - j;
        assert(moves[w[a] as int].entry.previous_move_hash == Some(moves[w[a - 1] as int].address));
    }
    assert forall|j: int| 0 <= j < w.len() implies w[w.len() - 1 - j] == #[trigger] c[c.len() - 1 - j] by {
        lemma_walk_retraces_at(moves, game, c, w, j);
    }
}

/// Where the walk back from `previous` stops short of the first move (it has
/// made as many steps as there are moves, or the next address is missing or
/// belongs to another game), no chain of the game leads to `previous`.
proof fn lemma_walk_blocked<M>(
    moves: Seq<StoredMove<M>>,
    game: EntryAddress,
    previous: Option<EntryAddress>,
    w: Seq<usize>,
    cursor: Option<EntryAddress>,
)
    requires
        cursor is Some,
        w.len() <= moves.len(),
        forall|k: int| 0 <= k < w.len() ==> #[trigger] w[k] < moves.len() && moves[w[k] as int].entry.game_hash == game,
        forall|k: int|
            0 < k < w.len() ==> moves[#[trigger] w[k] as int].entry.previous_move_hash == Some(
                moves[w[k - 1] as int].address,
            ),
        w.len() > 0 ==> tip(moves, w) == previous,
        cursor == (if w.len() == 0 { previous } else { moves[w[0] as int].entry.previous_move_hash }),
        unique_addresses(moves) ==> w.len() == moves.len() || (forall|i: int|
            0 <= i < moves.len() && moves[i].address == cursor->Some_0 ==> moves[i].entry.game_hash
                != game),
    ensures
        unique_addresses(moves) ==> forall|c: Seq<usize>| !(linked(moves, game, c) && tip(moves, c) == previous),
{
    if unique_addresses(moves) {
        assert forall|c: Seq<usize>| !(linked(moves, game, c) && tip(moves, c) == previous) by {
            if linked(moves, game, c) && tip(moves, c) == previous {
                lemma_linked_len(moves, game, c);
                if w.len() == 0 {
                    assert(moves[c[c.len() - 1] as int].address == cursor->Some_0);
                } else {
                    lemma_walk_retraces(moves, game, c, w);
                    let m = c.len() - w.len();
                    assert(w[w.len() - 1 - (w.len() - 1)] == c[c.len() - 1 - (w.len() - 1)]);
                    if m == 0 {
                        assert(moves[c[0] as int].entry.previous_move_hash is None);
                    } else {
                        assert(moves[c[m] as int].entry.previous_move_hash == Some(moves[c[m - 1] as int].address));
                        assert(moves[c[m - 1] as int].address == cursor->Some_0);
                    }
                }
            }
        }
    }
}

/// The moves before the candidate, from the first move of the game, found by
/// following previous-move pointers back from `previous`.
fn chain_before<M>(
    moves: &Vec<StoredMove<M>>,
    game_address: EntryAddress,
    previous: Option<EntryAddress>,
) -> (r: Option<Vec<usize>>)
    ensures
        r matches Some(c) ==> linked(moves@, game_address, c@) && tip(moves@, c@) == previous,
        previous is None ==> (r matches Some(c) && c@.len() == 0),
        r is None && unique_addresses(moves@) ==> forall|c: Seq<usize>|
            !(linked(moves@, game_address, c) && tip(moves@, c) == previous),
{
    let mut chain: Vec<usize> = Vec::new();
    let mut cursor: Option<EntryAddress> = previous;
    while cursor.is_some()
        invariant
            chain@.len() <= moves@.len(),
            forall|k: int|
                0 <= k < chain@.len() ==> #[trigger] chain@[k] < moves@.len()
                    && moves@[chain@[k] as int].entry.game_hash == game_address,
            forall|k: int|
                0 < k < chain@.len() ==> moves@[#[trigger] chain@[k] as int].entry.previous_move_hash
                    == Some(moves@[chain@[k - 1] as int].address),
            chain@.len() > 0 ==> tip(moves@, chain@) == previous,
            cursor == (if chain@.len() == 0 {
                previous
            } else {
                moves@[chain@[0] as int].entry.previous_move_hash
            }),
        decreases moves@.len() - chain@.len(),
    {
        let p = cursor.unwrap();
        if chain.len() == moves.len() {
            proof {
                lemma_walk_blocked(moves@, game_address, previous, chain@, cursor);
            }
            return None;
        }
        let i = match find_move(moves, p) {
            Some(i) => i,
            None => {
                proof {
                    lemma_walk_blocked(moves@, game_address, previous, chain@, cursor);
                }
                return None;
            },
        };
        if moves[i].entry.game_hash != game_address {
            assert(unique_addresses(moves@) ==> forall|j: int|
                0 <= j < moves@.len() && moves@[j].address == p ==> j == i);
            proof {
                lemma_walk_blocked(moves@, game_address, previous, chain@, cursor);
            }
            return None;
        }
        let ghost old_chain = chain@;
        chain.insert(0, i);
        assert(chain@ =~= seq![i].add(old_chain));
        assert(forall|k: int| 0 < k < chain@.len() ==> chain@[k] == old_chain[k - 1]);
        cursor = moves[i].entry.previous_move_hash;
    }
    Some(chain)
}

/// `c` is a chain of the game from its first move that ends at `previous`.
pub open spec fn chain_to<M>(
    moves: Seq<StoredMove<M>>,
    game: EntryAddress,
    previous: Option<EntryAddress>,
    c: Seq<usize>,
) -> bool {
    linked(moves, game, c) && tip(moves, c) == previous
}

/// The error that a refusal by the rules is reported as.
pub open spec fn rule_error(v: RuleViolation) -> GameError {
    match v {
        RuleViolation::Malformed => GameError::MalformedPayload,
        RuleViolation::Illegal => GameError::IllegalMove,
        RuleViolation::Finished => GameError::GameAlreadyConcluded,
    }
}

/// A result with the state replaced by its view.
pub open spec fn viewed<G: View>(r: Result<G, GameError>) -> Result<G::V, GameError> {
    match r {
        Ok(s) => Ok(s@),
        Err(e) => Err(e),
    }
}

/// The verdict on appending `candidate` to the game at `game`, given the
/// game's players and the moves of it held so far.
///
/// In order: a published result concludes the game; the player count must
/// be within bounds; the candidate must belong to the game; no other held
/// move may already follow the same predecessor (a fork); the predecessor
/// must lead back through moves of the game to its first move; the author
/// must be a player, and on turn at the candidate's depth; the chain must
/// replay; and the rules decide the candidate. Where stored addresses are
/// unique, the chain to the predecessor is unique and the verdict is fixed
/// by these conditions.
pub open spec fn verdict<M, G: TurnBasedGame<M>>(
    players: Seq<AgentId>,
    game: EntryAddress,
    result_published: bool,
    moves: Seq<StoredMove<M>>,
    candidate: MoveEntry<M>,
    candidate_address: Option<EntryAddress>,
    r: Result<G::V, GameError>,
) -> bool {
    let count_ok = player_count_ok::<M, G>(players.len());
    let in_game = !result_published && count_ok && candidate.game_hash == game;
    let unforked = in_game && forall|i: int|
        !is_sibling(moves, game, candidate.previous_move_hash, candidate_address, i);
    let prev = candidate.previous_move_hash;
    let author = candidate.author_pub_key;
    &&& result_published ==> r == Err::<G::V, GameError>(GameError::GameAlreadyConcluded)
    &&& (r == Err::<G::V, GameError>(GameError::InvalidPlayerCount)) == (!result_published && !count_ok)
    &&& !result_published && count_ok && candidate.game_hash != game ==> r == Err::<G::V, GameError>(
        GameError::BrokenChainPointer,
    )
    &&& in_game && (exists|i: int| is_sibling(moves, game, prev, candidate_address, i)) ==> (r is Err
        && r->Err_0 is Fork)
    &&& match r {
        Err(GameError::Fork(a)) => in_game && (exists|i: int|
            is_sibling(moves, game, prev, candidate_address, i) && a@.contains(moves[i].address))
            && (candidate_address matches Some(x) ==> a@.contains(x)),
        _ => true,
    }
    &&& unforked && (forall|c: Seq<usize>| !chain_to(moves, game, prev, c)) ==> r == Err::<
        G::V,
        GameError,
    >(GameError::BrokenChainPointer)
    &&& r == Err::<G::V, GameError>(GameError::BrokenChainPointer) ==> (!result_published && count_ok
        && candidate.game_hash != game) || (unforked && prev is Some && (!unique_addresses(moves)
        || forall|c: Seq<usize>| !chain_to(moves, game, prev, c)))
    &&& forall|c: Seq<usize>|
        unforked && unique_addresses(moves) && #[trigger] chain_to(moves, game, prev, c) ==> {
            &&& !players.contains(author) ==> r == Err::<G::V, GameError>(GameError::UnknownAuthor)
            &&& players.contains(author) && !on_turn(players, author, c.len()) ==> r == Err::<
                G::V,
                GameError,
            >(GameError::OutOfTurn)
            &&& on_turn(players, author, c.len()) ==> match replay::<M, G>(players, entries(moves, c)) {
                None => r == Err::<G::V, GameError>(GameError::CorruptedChain),
                Some(st) => match G::apply_spec(st, candidate.game_move, players, c.len() % players.len()) {
                    Ok(s) => r == Ok::<G::V, GameError>(s),
                    Err(v) => r == Err::<G::V, GameError>(rule_error(v)),
                },
            }
        }
    &&& r == Err::<G::V, GameError>(GameError::UnknownAuthor) ==> unforked && !players.contains(author)
    &&& r == Err::<G::V, GameError>(GameError::OutOfTurn) ==> unforked && exists|c: Seq<usize>|
        #[trigger] chain_to(moves, game, prev, c) && players.contains(author) && !on_turn(
            players,
            author,
            c.len(),
        )
    &&& r == Err::<G::V, GameError>(GameError::CorruptedChain) ==> unforked && exists|c: Seq<usize>|
        #[trigger] chain_to(moves, game, prev, c) && replay::<M, G>(players, entries(moves, c)) is None
    &&& r == Err::<G::V, GameError>(GameError::MalformedPayload) ==> unforked && refused_by_rules::<M, G>(
        players,
        moves,
        game,
        candidate,
        RuleViolation::Malformed,
    )
    &&& r == Err::<G::V, GameError>(GameError::IllegalMove) ==> unforked && refused_by_rules::<M, G>(
        players,
        moves,
        game,
        candidate,
        RuleViolation::Illegal,
    )
    &&& r == Err::<G::V, GameError>(GameError::GameAlreadyConcluded) ==> result_published || (unforked
        && refused_by_rules::<M, G>(players, moves, game, candidate, RuleViolation::Finished))
    &&& match r {
        Ok(s) => unforked && extends_chain::<M, G>(players, moves, game, candidate, s),
        Err(_) => true,
    }
}

/// With unique addresses, only one chain of the game ends at a given move.
proof fn lemma_chain_to_unique<M>(
    moves: Seq<StoredMove<M>>,
    game: EntryAddress,
    previous: Option<EntryAddress>,
    w: Seq<usize>,
)
    requires
        unique_addresses(moves),
        chain_to(moves, game, previous, w),
    ensures
        forall|c: Seq<usize>| #[trigger] chain_to(moves, game, previous, c) ==> c == w,
{
    assert forall|c: Seq<usize>| #[trigger] chain_to(moves, game, previous, c) implies c == w by {
        if c.len() > 0 && w.len() > 0 {
            lemma_walk_retraces(moves, game, c, w);
            lemma_walk_retraces(moves, game, w, c);
            assert forall|k: int| 0 <= k < c.len() implies c[k] == w[k] by {
                let j = c.len() - 1 - k;
                assert(w[w.len() - 1 - j] == c[c.len() - 1 - j]);
            }
            assert(c =~= w);
        } else {
            assert(c.len() == 0 && w.len() == 0);
            assert(c =~= w);
        }
    }
}

/// Validation is repeatable: two verdicts on the same candidate, against the
/// same game and moves with unique addresses, agree (a fork may be reported
/// with another list of competing addresses).
pub proof fn lemma_verdict_repeatable<M, G: TurnBasedGame<M>>(
    players: Seq<AgentId>,
    game: EntryAddress,
    result_published: bool,
    moves: Seq<StoredMove<M>>,
    candidate: MoveEntry<M>,
    candidate_address: Option<EntryAddress>,
    r1: Result<G::V, GameError>,
    r2: Result<G::V, GameError>,
)
    requires
        unique_addresses(moves),
        verdict::<M, G>(players, game, result_published, moves, candidate, candidate_address, r1),
        verdict::<M, G>(players, game, result_published, moves, candidate, candidate_address, r2),
    ensures
        (r1 is Err && r1->Err_0 is Fork) == (r2 is Err && r2->Err_0 is Fork),
        !(r1 is Err && r1->Err_0 is Fork) ==> r1 == r2,
{
    let prev = candidate.previous_move_hash;
    if exists|c: Seq<usize>| chain_to(moves, game, prev, c) {
        let c = choose|c: Seq<usize>| chain_to(moves, game, prev, c);
        assert(chain_to(moves, game, prev, c));
    }
}

/// Decides whether `candidate` may be appended to the game at `game_address`,
/// given the moves of that game held so far; on acceptance returns the state
/// after the candidate.
///
/// `candidate_address` is the candidate's own address when it is already
/// stored, so that it is not taken for a competitor of itself.
#[verifier::rlimit(100)]
pub fn validate_move<M, G: TurnBasedGame<M>>(
    game: &GameEntry,
    game_address: EntryAddress,
    result_published: bool,
    moves: &Vec<StoredMove<M>>,
    candidate: &MoveEntry<M>,
    candidate_address: Option<EntryAddress>,
) -> (r: Result<G, GameError>)
    ensures
        verdict::<M, G>(
            game.players@,
            game_address,
            result_published,
            moves@,
            *candidate,
            candidate_address,
            viewed(r),
        ),
{
    if result_published {
        return Err(GameError::GameAlreadyConcluded);
    }
    let players = &game.players;
    if !check_player_count::<M, G>(players.len()) {
        return Err(GameError::InvalidPlayerCount);
    }
    if candidate.game_hash != game_address {
        return Err(GameError::BrokenChainPointer);
    }
    let mut i: usize = 0;
    while i < moves.len()
        invariant
            i <= moves@.len(),
            !result_published,
            player_count_ok::<M, G>(players@.len()),
            players == &game.players,
            candidate.game_hash == game_address,
            forall|j: int|
                0 <= j < i ==> !is_sibling(
                    moves@,
                    game_address,
                    candidate.previous_move_hash,
                    candidate_address,
                    j,
                ),
        decreases moves@.len() - i,
    {
        let m = &moves[i];
        if m.entry.game_hash == game_address && m.entry.previous_move_hash
            == candidate.previous_move_hash && Some(m.address) != candidate_address {
            let mut competing: Vec<EntryAddress> = Vec::new();
            competing.push(m.address);
            match candidate_address {
                Some(a) => competing.push(a),
                None => {},
            }
            assert(competing@[0] == m.address);
            assert(is_sibling(moves@, game_address, candidate.previous_move_hash, candidate_address, i as int));
            assert(candidate_address matches Some(x) ==> competing@[1] == x);
            return Err(GameError::Fork(competing));
        }
        i = i + 1;
    }
    let chain = match chain_before(moves, game_address, candidate.previous_move_hash) {
        Some(c) => c,
        None => {
            return Err(GameError::BrokenChainPointer);
        },
    };
    let ghost c = chain@;
    proof {
        if unique_addresses(moves@) {
            lemma_chain_to_unique(moves@, game_address, candidate.previous_move_hash, c);
        }
    }
    let depth = chain.len();
    let turn = depth % players.len();
    match author_index(players, candidate.author_pub_key) {
        Some(idx) => {
            assert(game.players@[idx as int] == candidate.author_pub_key);
            assert(game.players@.contains(candidate.author_pub_key));
            assert(chain_to(moves@, game_address, candidate.previous_move_hash, c));
            if idx != turn {
                assert(!on_turn(game.players@, candidate.author_pub_key, c.len()));
                return Err(GameError::OutOfTurn);
            }
            assert(on_turn(game.players@, candidate.author_pub_key, c.len()));
        },
        None => {
            assert(!game.players@.contains(candidate.author_pub_key));
            assert(chain_to(moves@, game_address, candidate.previous_move_hash, c));
            return Err(GameError::UnknownAuthor);
        },
    }
    let mut state: G = match replay_chain(players, moves, &chain) {
        Some(s) => s,
        None => {
            assert(chain_to(moves@, game_address, candidate.previous_move_hash, c));
            assert(replay::<M, G>(game.players@, entries(moves@, c)) is None);
            return Err(GameError::CorruptedChain);
        },
    };
    let ghost before = state;
    assert(entries(moves@, c).push(*candidate).drop_last() =~= entries(moves@, c));
    match state.apply_move(&candidate.game_move, players, turn) {
        Ok(()) => {
            assert(replay::<M, G>(game.players@, entries(moves@, c).push(*candidate)) == Some(state@));
            Ok(state)
        },
        Err(RuleViolation::Malformed) => Err(GameError::MalformedPayload),
        Err(RuleViolation::Illegal) => Err(GameError::IllegalMove),
        Err(RuleViolation::Finished) => Err(GameError::GameAlreadyConcluded),
    }
}


} // verus!
