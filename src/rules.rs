use vstd::prelude::*;

verus! {

/// Why the rules of a game refuse a move.
#[derive(Clone, Copy, Debug, PartialEq, Eq)]
pub enum RuleViolation {
    /// The payload cannot be read as a move.
    Malformed,
    /// The move is not allowed in the current position.
    Illegal,
    /// The game has already ended in this state.
    Finished,
}

/// The rules of one game type, as pure functions over its state.
///
/// `Self` is the game state, modelled by its view; `M` is the move payload.
pub trait TurnBasedGame<M>: Sized + View {
    /// Fewest players a game may have (`None`: no lower bound).
    spec fn min_players_spec() -> Option<usize>;

    /// Most players a game may have (`None`: no upper bound).
    spec fn max_players_spec() -> Option<usize>;

    /// The starting state for an ordered list of players.
    spec fn initial_spec(players: Seq<u64>) -> Self::V;

    /// The state after the player at `author_index` plays `m`, or why not.
    spec fn apply_spec(state: Self::V, m: M, players: Seq<u64>, author_index: nat) -> Result<Self::V, RuleViolation>;

    /// The winner read off the state, if the game has one.
    spec fn winner_spec(state: Self::V, players: Seq<u64>) -> Option<u64>;

    fn min_players() -> (r: Option<usize>)
        ensures
            r == Self::min_players_spec(),
    ;

    fn max_players() -> (r: Option<usize>)
        ensures
            r == Self::max_players_spec(),
    ;

    fn initial(players: &Vec<u64>) -> (r: Self)
        requires
            count_within(players@.len(), Self::min_players_spec(), Self::max_players_spec()),
        ensures
            r@ == Self::initial_spec(players@),
    ;

    /// Plays one move; on refusal the state is left as it was.
    fn apply_move(&mut self, m: &M, players: &Vec<u64>, author_index: usize) -> (r: Result<(), RuleViolation>)
        requires
            count_within(players@.len(), Self::min_players_spec(), Self::max_players_spec()),
            author_index < players@.len(),
        ensures
            match Self::apply_spec(old(self)@, *m, players@, author_index as nat) {
                Ok(s) => r is Ok && final(self)@ == s,
                Err(v) => r == Err::<(), RuleViolation>(v) && final(self)@ == old(self)@,
            },
    ;

    fn get_winner(&self, players: &Vec<u64>) -> (r: Option<u64>)
        requires
            count_within(players@.len(), Self::min_players_spec(), Self::max_players_spec()),
        ensures
            r == Self::winner_spec(self@, players@),
    ;
}

/// A player count that the game type accepts: at least one player, and within
/// the declared bounds.
pub open spec fn count_within(n: nat, lo: Option<usize>, hi: Option<usize>) -> bool {
    &&& n >= 1
    &&& match lo {
        Some(lo) => n >= lo,
        None => true,
    }
    &&& match hi {
        Some(hi) => n <= hi,
        None => true,
    }
}

/// [`count_within`] for the bounds that the game type `G` declares.
pub open spec fn player_count_ok<M, G: TurnBasedGame<M>>(n: nat) -> bool {
    count_within(n, G::min_players_spec(), G::max_players_spec())
}

/// Checks a player count against the game type's bounds.
pub fn check_player_count<M, G: TurnBasedGame<M>>(n: usize) -> (r: bool)
    ensures
        r == player_count_ok::<M, G>(n as nat),
{
    if n == 0 {
        return false;
    }
    let lo_ok = match G::min_players() {
        Some(lo) => n >= lo,
        None => true,
    };
    let hi_ok = match G::max_players() {
        Some(hi) => n <= hi,
        None => true,
    };
    lo_ok && hi_ok
}

} // verus!
