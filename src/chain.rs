use vstd::prelude::*;
use crate::records::{AgentId, EntryAddress, GameEntry, GameError, MoveEntry, StoredMove};
use crate::rules::{check_player_count, player_count_ok, RuleViolation, TurnBasedGame};

verus! {

/// `i` is the first position of `a` in `players`.
pub open spec fn is_author_index(players: Seq<AgentId>, a: AgentId, i: int) -> bool {
    &&& 0 <= i < players.len()
    &&& players[i] == a
    &&& forall|j: int| 0 <= j < i ==> players[j] != a
}

/// It is `a`'s turn at ply `depth`: the position of `a` among the players is
/// `depth mod N`.
pub open spec fn on_turn(players: Seq<AgentId>, a: AgentId, depth: nat) -> bool {
    players.len() > 0 && is_author_index(players, a, (depth % players.len()) as int)
}

/// The state reached by playing `ms` in order from the initial state, each
/// move by the player whose turn it is; `None` if some move is refused.
pub open spec fn replay<M, G: TurnBasedGame<M>>(players: Seq<AgentId>, ms: Seq<MoveEntry<M>>) -> Option<G::V>
    decreases ms.len(),
{
    if ms.len() == 0 {
        Some(G::initial_spec(players))
    } else {
        let depth = (ms.len() - 1) as nat;
        match replay::<M, G>(players, ms.drop_last()) {
            Some(s) => if on_turn(players, ms.last().author_pub_key, depth) {
                match G::apply_spec(s, ms.last().game_move, players, depth % players.len()) {
                    Ok(t) => Some(t),
                    Err(_) => None,
                }
            } else {
                None
            },
            None => None,
        }
    }
}

/// The entries at positions `c` of the stored moves.
pub open spec fn entries<M>(moves: Seq<StoredMove<M>>, c: Seq<usize>) -> Seq<MoveEntry<M>> {
    c.map_values(|i: usize| moves[i as int].entry)
}

/// `c` lists stored moves of `game` that form a chain from its first move:
/// the first has no predecessor and each other points at the one before it.
pub open spec fn linked<M>(moves: Seq<StoredMove<M>>, game: EntryAddress, c: Seq<usize>) -> bool {
    &&& forall|k: int|
        0 <= k < c.len() ==> #[trigger] c[k] < moves.len() && moves[c[k] as int].entry.game_hash == game
    &&& c.len() > 0 ==> moves[c[0] as int].entry.previous_move_hash is None
    &&& forall|k: int|
        0 < k < c.len() ==> moves[#[trigger] c[k] as int].entry.previous_move_hash == Some(
            moves[c[k - 1] as int].address,
        )
}

/// The address of the chain's last move; `None` for the empty chain.
pub open spec fn tip<M>(moves: Seq<StoredMove<M>>, c: Seq<usize>) -> Option<EntryAddress> {
    if c.len() == 0 {
        None
    } else {
        Some(moves[c.last() as int].address)
    }
}

/// No two stored moves claim the same predecessor.
pub open spec fn no_fork<M>(moves: Seq<StoredMove<M>>) -> bool {
    forall|i: int, j: int|
        0 <= i < moves.len() && 0 <= j < moves.len() && i != j ==> #[trigger] moves[i].entry.previous_move_hash
            != #[trigger] moves[j].entry.previous_move_hash
}

/// Stored move `i` of `game` already follows `previous`, and is not the
/// candidate itself (which, if stored, is at `candidate`).
pub open spec fn is_sibling<M>(
    moves: Seq<StoredMove<M>>,
    game: EntryAddress,
    previous: Option<EntryAddress>,
    candidate: Option<EntryAddress>,
    i: int,
) -> bool {
    &&& 0 <= i < moves.len()
    &&& moves[i].entry.game_hash == game
    &&& moves[i].entry.previous_move_hash == previous
    &&& Some(moves[i].address) != candidate
}

/// `candidate` follows a chain of the game from its first move, and playing
/// that chain and then the candidate reaches `s`.
pub open spec fn extends_chain<M, G: TurnBasedGame<M>>(
    players: Seq<AgentId>,
    moves: Seq<StoredMove<M>>,
    game: EntryAddress,
    candidate: MoveEntry<M>,
    s: G::V,
) -> bool {
    exists|c: Seq<usize>|
        {
            &&& linked(moves, game, c)
            &&& tip(moves, c) == candidate.previous_move_hash
            &&& #[trigger] replay::<M, G>(players, entries(moves, c).push(candidate)) == Some(s)
        }
}

/// The candidate follows a chain of the game that replays, on its author's
/// turn, and the rules refuse it there with `v`.
pub open spec fn refused_by_rules<M, G: TurnBasedGame<M>>(
    players: Seq<AgentId>,
    moves: Seq<StoredMove<M>>,
    game: EntryAddress,
    candidate: MoveEntry<M>,
    v: RuleViolation,
) -> bool {
    exists|c: Seq<usize>|
        {
            &&& linked(moves, game, c)
            &&& tip(moves, c) == candidate.previous_move_hash
            &&& on_turn(players, candidate.author_pub_key, c.len())
            &&& (#[trigger] replay::<M, G>(players, entries(moves, c)) matches Some(s)
                && G::apply_spec(s, candidate.game_move, players, c.len() % players.len()) is Err
                && G::apply_spec(s, candidate.game_move, players, c.len() % players.len())->Err_0 == v)
        }
}

/// `a` lists the addresses of exactly the stored moves that claim `p` as
/// their predecessor, each stored move once.
pub open spec fn lists_successors<M>(moves: Seq<StoredMove<M>>, a: Seq<EntryAddress>, p: Option<EntryAddress>) -> bool {
    exists|idx: Seq<int>|
        {
            &&& idx.len() == a.len()
            &&& idx.no_duplicates()
            &&& forall|k: int|
                0 <= k < idx.len() ==> 0 <= #[trigger] idx[k] < moves.len()
                    && moves[idx[k]].entry.previous_move_hash == p && moves[idx[k]].address == a[k]
            &&& forall|i: int|
                0 <= i < moves.len() && #[trigger] moves[i].entry.previous_move_hash == p
                    ==> idx.contains(i)
        }
}

/// `a` lists, for one predecessor, the addresses of all stored moves that
/// claim it, and there are at least two of them.
pub open spec fn lists_fork<M>(moves: Seq<StoredMove<M>>, a: Seq<EntryAddress>) -> bool {
    &&& a.len() >= 2
    &&& exists|p: Option<EntryAddress>| #[trigger] lists_successors(moves, a, p)
}

/// Makes the record of a new game, if the game type accepts that many players.
pub fn new_game<M, G: TurnBasedGame<M>>(players: Vec<AgentId>, created_at: i64) -> (r: Result<GameEntry, GameError>)
    ensures
        match r {
            Ok(g) => player_count_ok::<M, G>(players@.len()) && g.players@ == players@ && g.created_at
                == created_at,
            Err(e) => !player_count_ok::<M, G>(players@.len()) && e == GameError::InvalidPlayerCount,
        },
{
    if !check_player_count::<M, G>(players.len()) {
        return Err(GameError::InvalidPlayerCount);
    }
    Ok(GameEntry { players, created_at })
}

/// Two chains from the first move of a game without forks agree wherever both
/// are defined.
pub proof fn lemma_chains_agree<M>(
    moves: Seq<StoredMove<M>>,
    game: EntryAddress,
    c1: Seq<usize>,
    c2: Seq<usize>,
    k: int,
)
    requires
        linked(moves, game, c1),
        linked(moves, game, c2),
        no_fork(moves),
        0 <= k < c1.len(),
        k < c2.len(),
    ensures
        c1[k] == c2[k],
    decreases k,
{
    if k > 0 {
        lemma_chains_agree(moves, game, c1, c2, k - 1);
    }
    if c1[k] != c2[k] {
        assert(moves[c1[k] as int].entry.previous_move_hash == moves[c2[k] as int].entry.previous_move_hash);
    }
}

/// Replay is deterministic: in a game without forks, two chains of the same
/// length from the first move are the same chain, and replay to the same state.
pub proof fn lemma_reconstruction_deterministic<M, G: TurnBasedGame<M>>(
    players: Seq<AgentId>,
    moves: Seq<StoredMove<M>>,
    game: EntryAddress,
    c1: Seq<usize>,
    c2: Seq<usize>,
)
    requires
        linked(moves, game, c1),
        linked(moves, game, c2),
        no_fork(moves),
        c1.len() == c2.len(),
    ensures
        c1 == c2,
        replay::<M, G>(players, entries(moves, c1)) == replay::<M, G>(players, entries(moves, c2)),
{
    assert forall|k: int| 0 <= k < c1.len() implies c1[k] == c2[k] by {
        lemma_chains_agree(moves, game, c1, c2, k);
    }
    assert(c1 =~= c2);
}

/// Turn alternation: in every sequence of moves that replays, the move at
/// depth `k` was played by the player at position `k mod N`.
pub proof fn lemma_turn_alternation<M, G: TurnBasedGame<M>>(
    players: Seq<AgentId>,
    ms: Seq<MoveEntry<M>>,
)
    requires
        replay::<M, G>(players, ms) is Some,
    ensures
        forall|k: int| 0 <= k < ms.len() ==> on_turn(players, #[trigger] ms[k].author_pub_key, k as nat),
    decreases ms.len(),
{
    if ms.len() > 0 {
        lemma_turn_alternation::<M, G>(players, ms.drop_last());
        assert forall|k: int| 0 <= k < ms.len() implies on_turn(players, #[trigger] ms[k].author_pub_key, k as nat) by {
            if k < ms.len() - 1 {
                assert(ms[k] == ms.drop_last()[k]);
            }
        }
    }
}

/// A sequence whose prefix does not replay does not replay either.
proof fn lemma_replay_prefix_fails<M, G: TurnBasedGame<M>>(players: Seq<AgentId>, ms: Seq<MoveEntry<M>>, k: int)
    requires
        0 <= k <= ms.len(),
        replay::<M, G>(players, ms.subrange(0, k)) is None,
    ensures
        replay::<M, G>(players, ms) is None,
    decreases ms.len() - k,
{
    if k < ms.len() {
        assert(ms.subrange(0, k + 1).drop_last() =~= ms.subrange(0, k));
        lemma_replay_prefix_fails::<M, G>(players, ms, k + 1);
    } else {
        assert(ms.subrange(0, k) =~= ms);
    }
}

/// Turn alternation for accepted moves: when a candidate is accepted after a
/// chain of the game, every move of that chain, and the candidate itself, was
/// played by the player whose position is its depth mod N.
pub proof fn lemma_accepted_moves_alternate<M, G: TurnBasedGame<M>>(
    players: Seq<AgentId>,
    moves: Seq<StoredMove<M>>,
    game: EntryAddress,
    candidate: MoveEntry<M>,
    s: G::V,
)
    requires
        extends_chain::<M, G>(players, moves, game, candidate, s),
    ensures
        exists|c: Seq<usize>|
            {
                &&& linked(moves, game, c)
                &&& tip(moves, c) == candidate.previous_move_hash
                &&& on_turn(players, candidate.author_pub_key, c.len())
                &&& forall|k: int|
                    0 <= k < c.len() ==> on_turn(
                        players,
                        #[trigger] moves[c[k] as int].entry.author_pub_key,
                        k as nat,
                    )
            },
{
    let c = choose|c: Seq<usize>|
        {
            &&& linked(moves, game, c)
            &&& tip(moves, c) == candidate.previous_move_hash
            &&& #[trigger] replay::<M, G>(players, entries(moves, c).push(candidate)) == Some(s)
        };
    let ms = entries(moves, c).push(candidate);
    lemma_turn_alternation::<M, G>(players, ms);
    assert(ms[c.len() as int] == candidate);
    assert forall|k: int| 0 <= k < c.len() implies on_turn(
        players,
        #[trigger] moves[c[k] as int].entry.author_pub_key,
        k as nat,
    ) by {
        assert(ms[k] == moves[c[k] as int].entry);
    }
}

/// The first position of `a` among the players.
pub fn author_index(players: &Vec<AgentId>, a: AgentId) -> (r: Option<usize>)
    ensures
        match r {
            Some(i) => is_author_index(players@, a, i as int),
            None => !players@.contains(a),
        },
{
    let mut i: usize = 0;
    while i < players.len()
        invariant
            i <= players@.len(),
            forall|j: int| 0 <= j < i ==> players@[j] != a,
        decreases players@.len() - i,
    {
        if players[i] == a {
            return Some(i);
        }
        i = i + 1;
    }
    None
}


/// The position of the first stored move at address `addr`.
pub(crate) fn find_move<M>(moves: &Vec<StoredMove<M>>, addr: EntryAddress) -> (r: Option<usize>)
    ensures
        match r {
            Some(i) => i < moves@.len() && moves@[i as int].address == addr,
            None => forall|i: int| 0 <= i < moves@.len() ==> moves@[i].address != addr,
        },
{
    let mut i: usize = 0;
    while i < moves.len()
        invariant
            i <= moves@.len(),
            forall|j: int| 0 <= j < i ==> moves@[j].address != addr,
        decreases moves@.len() - i,
    {
        if moves[i].address == addr {
            return Some(i);
        }
        i = i + 1;
    }
    None
}

/// The position of the first stored move whose predecessor is `previous`.
pub(crate) fn find_successor<M>(moves: &Vec<StoredMove<M>>, previous: Option<EntryAddress>) -> (r: Option<usize>)
    ensures
        match r {
            Some(i) => i < moves@.len() && moves@[i as int].entry.previous_move_hash == previous,
            None => forall|i: int|
                0 <= i < moves@.len() ==> moves@[i].entry.previous_move_hash != previous,
        },
{
    let mut i: usize = 0;
    while i < moves.len()
        invariant
            i <= moves@.len(),
            forall|j: int| 0 <= j < i ==> moves@[j].entry.previous_move_hash != previous,
        decreases moves@.len() - i,
    {
        if moves[i].entry.previous_move_hash == previous {
            return Some(i);
        }
        i = i + 1;
    }
    None
}

/// Replays the stored moves at positions `chain` from the initial state.
pub fn replay_chain<M, G: TurnBasedGame<M>>(
    players: &Vec<AgentId>,
    moves: &Vec<StoredMove<M>>,
    chain: &Vec<usize>,
) -> (r: Option<G>)
    requires
        player_count_ok::<M, G>(players@.len()),
        forall|k: int| 0 <= k < chain@.len() ==> #[trigger] chain@[k] < moves@.len(),
    ensures
        match r {
            Some(s) => replay::<M, G>(players@, entries(moves@, chain@)) == Some(s@),
            None => replay::<M, G>(players@, entries(moves@, chain@)) is None,
        },
{
    let ghost ms = entries(moves@, chain@);
    let n = players.len();
    let mut state = G::initial(players);
    let mut k: usize = 0;
    assert(ms.subrange(0, 0) =~= Seq::<MoveEntry<M>>::empty());
    while k < chain.len()
        invariant
            k <= chain@.len(),
            n == players@.len(),
            player_count_ok::<M, G>(players@.len()),
            forall|j: int| 0 <= j < chain@.len() ==> #[trigger] chain@[j] < moves@.len(),
            ms == entries(moves@, chain@),
            replay::<M, G>(players@, ms.subrange(0, k as int)) == Some(state@),
        decreases chain@.len() - k,
    {
        let e = &moves[chain[k]].entry;
        assert(ms.subrange(0, k + 1).drop_last() =~= ms.subrange(0, k as int));
        assert(ms.subrange(0, k + 1).last() == *e);
        let turn = k % n;
        match author_index(players, e.author_pub_key) {
            Some(i) => {
                if i != turn {
                    assert(!on_turn(players@, e.author_pub_key, k as nat));
                    proof {
                        lemma_replay_prefix_fails::<M, G>(players@, ms, k + 1);
                    }
                    return None;
                }
            },
            None => {
                assert(!on_turn(players@, e.author_pub_key, k as nat));
                proof {
                    lemma_replay_prefix_fails::<M, G>(players@, ms, k + 1);
                }
                return None;
            },
        }
        match state.apply_move(&e.game_move, players, turn) {
            Ok(()) => {},
            Err(_) => {
                proof {
                    lemma_replay_prefix_fails::<M, G>(players@, ms, k + 1);
                }
                return None;
            },
        }
        k = k + 1;
    }
    assert(ms.subrange(0, k as int) =~= ms);
    Some(state)
}


} // verus!
