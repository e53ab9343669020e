use vstd::prelude::*;

verus! {

/// Identity of an agent (a player's public key, reduced to a number).
pub type AgentId = u64;

/// Content address of an entry: a deterministic hash of its content.
pub type EntryAddress = u64;

/// The record that starts one match: the ordered players and when it was made.
#[derive(Clone, Debug)]
pub struct GameEntry {
    pub players: Vec<AgentId>,
    /// Creation time in milliseconds since the Unix epoch.
    pub created_at: i64,
}

/// One ply of a game: who played it, what was played, and the move it follows.
#[derive(Clone, Debug)]
pub struct MoveEntry<M> {
    pub game_hash: EntryAddress,
    pub author_pub_key: AgentId,
    pub game_move: M,
    pub previous_move_hash: Option<EntryAddress>,
}

/// A move entry together with the address under which it is stored.
#[derive(Clone, Debug)]
pub struct StoredMove<M> {
    pub address: EntryAddress,
    pub entry: MoveEntry<M>,
}

/// Why a game, a move or a reconstruction was refused.
#[derive(Clone, Debug, PartialEq, Eq)]
pub enum GameError {
    /// The player list does not meet the game's player-count bounds.
    InvalidPlayerCount,
    /// The move payload cannot be read as a move of this game.
    MalformedPayload,
    /// The move is read but the rules do not allow it in the position.
    IllegalMove,
    /// The author is a player, but it is not the author's turn.
    OutOfTurn,
    /// The author is not among the game's players.
    UnknownAuthor,
    /// The game has already ended.
    GameAlreadyConcluded,
    /// A previous-move pointer resolves to nothing, or to another game.
    BrokenChainPointer,
    /// Several moves claim the same predecessor; their addresses.
    Fork(Vec<EntryAddress>),
    /// A stored chain that should be valid does not replay.
    CorruptedChain,
}

} // verus!
