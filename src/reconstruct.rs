use vstd::prelude::*;
use crate::chain::{
    entries, find_successor, lemma_chains_agree, linked, no_fork, replay, replay_chain, tip,
    lists_fork, lists_successors,
};
use crate::records::{AgentId, EntryAddress, GameEntry, GameError, StoredMove};
use crate::rules::{check_player_count, player_count_ok, TurnBasedGame};

verus! {

/// A chain from the first move that has no successor, in a game without
/// forks, cannot be extended to cover all the stored moves.
proof fn lemma_chain_stuck<M>(moves: Seq<StoredMove<M>>, game: EntryAddress, chain: Seq<usize>)
    requires
        linked(moves, game, chain),
        no_fork(moves),
        chain.len() < moves.len(),
        forall|i: int| 0 <= i < moves.len() ==> moves[i].entry.previous_move_hash != tip(moves, chain),
    ensures
        forall|c: Seq<usize>| !(linked(moves, game, c) && c.len() == moves.len()),
{
    assert forall|c: Seq<usize>| !(linked(moves, game, c) && c.len() == moves.len()) by {
        if linked(moves, game, c) && c.len() == moves.len() {
            let l = chain.len() as int;
            if l > 0 {
                lemma_chains_agree(moves, game, c, chain, l - 1);
            }
            assert(moves[c[l] as int].entry.previous_move_hash == tip(moves, chain));
        }
    }
}

/// The addresses of all stored moves whose predecessor is `previous`, given
/// two distinct such moves.
fn competing_moves<M>(
    moves: &Vec<StoredMove<M>>,
    previous: Option<EntryAddress>,
    first: usize,
    second: usize,
) -> (r: Vec<EntryAddress>)
    requires
        first < moves@.len(),
        second < moves@.len(),
        first != second,
        moves@[first as int].entry.previous_move_hash == previous,
        moves@[second as int].entry.previous_move_hash == previous,
    ensures
        lists_fork(moves@, r@),
{
    let mut r: Vec<EntryAddress> = Vec::new();
    let ghost mut idx: Seq<int> = Seq::empty();
    let mut i: usize = 0;
    while i < moves.len()
        invariant
            i <= moves@.len(),
            first < moves@.len(),
            second < moves@.len(),
            first != second,
            moves@[first as int].entry.previous_move_hash == previous,
            moves@[second as int].entry.previous_move_hash == previous,
            r@.len() >= (if first < i { 1int } else { 0int }) + (if second < i { 1int } else { 0int }),
            idx.len() == r@.len(),
            forall|k: int| 0 <= k < idx.len() ==> 0 <= #[trigger] idx[k] < i,
            forall|k: int, l: int| 0 <= k < l < idx.len() ==> idx[k] < idx[l],
            forall|k: int|
                0 <= k < idx.len() ==> moves@[#[trigger] idx[k]].entry.previous_move_hash == previous
                    && moves@[idx[k]].address == r@[k],
            forall|j: int|
                0 <= j < i && #[trigger] moves@[j].entry.previous_move_hash == previous
                    ==> idx.contains(j),
        decreases moves@.len() - i,
    {
        if moves[i].entry.previous_move_hash == previous {
            let ghost old_idx = idx;
            r.push(moves[i].address);
            proof {
                idx = idx.push(i as int);
                assert forall|j: int|
                    0 <= j <= i && #[trigger] moves@[j].entry.previous_move_hash == previous
                        implies idx.contains(j) by {
                    if j < i {
                        let k = choose|k: int| 0 <= k < old_idx.len() && old_idx[k] == j;
                        assert(idx[k] == j);
                    } else {
                        assert(idx[idx.len() - 1] == j);
                    }
                }
            }
        }
        i = i + 1;
    }
    assert(idx.no_duplicates()) by {
        assert forall|k: int, l: int| 0 <= k < idx.len() && 0 <= l < idx.len() && k != l implies idx[k] != idx[l] by {
            if k < l {
                assert(idx[k] < idx[l]);
            } else {
                assert(idx[l] < idx[k]);
            }
        }
    }
    assert(lists_successors(moves@, r@, previous));
    r
}

/// The current state of the game at `game_address` and its winner, replayed
/// from all the moves of that game that are stored.
///
/// The stored moves must form one chain from the first move; a fork is
/// reported with the addresses of the competing moves, and a chain that does
/// not replay is reported as corrupted.
pub fn reconstruct<M, G: TurnBasedGame<M>>(
    game: &GameEntry,
    game_address: EntryAddress,
    moves: &Vec<StoredMove<M>>,
) -> (r: Result<(G, Option<AgentId>), GameError>)
    ensures
        !player_count_ok::<M, G>(game.players@.len()) <==> r == Err::<(G, Option<AgentId>), GameError>(
            GameError::InvalidPlayerCount,
        ),
        r is Ok ==> {
            &&& no_fork(moves@)
            &&& r->Ok_0.1 == G::winner_spec(r->Ok_0.0@, game.players@)
            &&& exists|c: Seq<usize>|
                {
                    &&& linked(moves@, game_address, c)
                    &&& c.len() == moves@.len()
                    &&& replay::<M, G>(game.players@, entries(moves@, c)) == Some(r->Ok_0.0@)
                }
        },
        r matches Err(GameError::Fork(a)) ==> !no_fork(moves@) && lists_fork(moves@, a@),
        r == Err::<(G, Option<AgentId>), GameError>(GameError::CorruptedChain) ==> {
            &&& no_fork(moves@)
            &&& exists|c: Seq<usize>|
                {
                    &&& linked(moves@, game_address, c)
                    &&& c.len() == moves@.len()
                    &&& replay::<M, G>(game.players@, entries(moves@, c)) is None
                }
        },
        r == Err::<(G, Option<AgentId>), GameError>(GameError::BrokenChainPointer) ==> (exists|i: int|
            0 <= i < moves@.len() && moves@[i].entry.game_hash != game_address) || (no_fork(moves@)
            && forall|c: Seq<usize>| !(linked(moves@, game_address, c) && c.len() == moves@.len())),
        r is Ok || r matches Err(GameError::Fork(_)) || r == Err::<(G, Option<AgentId>), GameError>(
            GameError::InvalidPlayerCount,
        ) || r == Err::<(G, Option<AgentId>), GameError>(GameError::CorruptedChain) || r == Err::<
            (G, Option<AgentId>),
            GameError,
        >(GameError::BrokenChainPointer),
{
    let players = &game.players;
    if !check_player_count::<M, G>(players.len()) {
        return Err(GameError::InvalidPlayerCount);
    }
    let n = moves.len();
    let mut i: usize = 0;
    while i < n
        invariant
            n == moves@.len(),
            players == &game.players,
            player_count_ok::<M, G>(players@.len()),
            i <= n,
            forall|j: int| 0 <= j < i ==> moves@[j].entry.game_hash == game_address,
        decreases n - i,
    {
        if moves[i].entry.game_hash != game_address {
            return Err(GameError::BrokenChainPointer);
        }
        i = i + 1;
    }
    let mut i: usize = 0;
    while i < n
        invariant
            n == moves@.len(),
            players == &game.players,
            player_count_ok::<M, G>(players@.len()),
            i <= n,
            forall|a: int, b: int|
                0 <= a < i && 0 <= b < n && a != b ==> #[trigger] moves@[a].entry.previous_move_hash
                    != #[trigger] moves@[b].entry.previous_move_hash,
        decreases n - i,
    {
        let mut j: usize = 0;
        while j < n
            invariant
                n == moves@.len(),
                players == &game.players,
                player_count_ok::<M, G>(players@.len()),
                i < n,
                j <= n,
                forall|a: int, b: int|
                    0 <= a < i && 0 <= b < n && a != b ==> #[trigger] moves@[a].entry.previous_move_hash
                        != #[trigger] moves@[b].entry.previous_move_hash,
                forall|b: int|
                    0 <= b < j && b != i ==> moves@[i as int].entry.previous_move_hash
                        != #[trigger] moves@[b].entry.previous_move_hash,
            decreases n - j,
        {
            if j != i && moves[i].entry.previous_move_hash == moves[j].entry.previous_move_hash {
                let competing = competing_moves(moves, moves[i].entry.previous_move_hash, i, j);
                return Err(GameError::Fork(competing));
            }
            j = j + 1;
        }
        i = i + 1;
    }
    assert(no_fork(moves@));
    let mut chain: Vec<usize> = Vec::new();
    let mut cursor: Option<EntryAddress> = None;
    while chain.len() < n
        invariant
            n == moves@.len(),
            players == &game.players,
            player_count_ok::<M, G>(players@.len()),
            chain@.len() <= n,
            forall|j: int| 0 <= j < n ==> moves@[j].entry.game_hash == game_address,
            no_fork(moves@),
            linked(moves@, game_address, chain@),
            cursor == tip(moves@, chain@),
        decreases n - chain@.len(),
    {
        match find_successor(moves, cursor) {
            Some(j) => {
                let ghost old_chain = chain@;
                chain.push(j);
                assert(forall|k: int| 0 <= k < old_chain.len() ==> chain@[k] == old_chain[k]);
                cursor = Some(moves[j].address);
            },
            None => {
                proof {
                    lemma_chain_stuck(moves@, game_address, chain@);
                }
                return Err(GameError::BrokenChainPointer);
            },
        }
    }
    match replay_chain::<M, G>(players, moves, &chain) {
        Some(state) => {
            let winner = state.get_winner(players);
            Ok((state, winner))
        },
        None => Err(GameError::CorruptedChain),
    }
}

} // verus!
