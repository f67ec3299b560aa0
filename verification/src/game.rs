//! The contract a concrete game fulfils, and the events an engine reports.

use vstd::prelude::*;

verus! {

/// A seat at the table: a dense index below the game's `PLAYER_COUNT`.
pub type PlayerID = u8;

/// What applying a move led to.
pub enum MoveResult {
    /// The game goes on.
    Continue,
    /// The game is over and nobody won.
    Draw,
    /// The game is over and the given seat won.
    Win(PlayerID),
}

/// A move that the rules of the game do not allow in the state it was proposed in.
#[derive(Clone, Copy, PartialEq, Eq, Debug)]
pub struct ValidationError;

/// A turn-based game as the engine sees it.
///
/// The `spec` functions are the game's mathematical model. The executable
/// methods are held to it by their contracts, which every implementation has to
/// meet: validation is a pure predicate of state and move, and applying a move is
/// a deterministic transition. What the engine proves, it proves of games that
/// keep these contracts. A game that is not itself verified gives the model
/// functions ordinary bodies that compute the same; nothing ever calls them.
pub trait Game: Sized + Clone + Send + 'static {
    /// A move, copied freely and opaque to the engine.
    type Move: Copy + Send;

    /// The number of seats, fixed per game type.
    const PLAYER_COUNT: u8;

    /// What holds of every state that the game itself brings about: of the
    /// starting state, and of a state after a legal move if it held before.
    open spec fn inv(&self) -> bool {
        true
    }

    /// Whether `qmove` is legal in this state.
    spec fn accepts(&self, qmove: Self::Move) -> bool;

    /// The state that applying the legal move `qmove` leads to.
    spec fn after(&self, qmove: Self::Move) -> Self;

    /// What applying the legal move `qmove` leads to: the game going on, a draw or a win.
    spec fn outcome(&self, qmove: Self::Move) -> MoveResult;

    /// The seat whose move is awaited.
    spec fn on_turn(&self) -> PlayerID;

    /// Whether `shown` is a view of this state, other than a plain copy, that
    /// `seat` may be given when the game starts. A game without hidden
    /// information has none; a game that hides something from a seat says here
    /// what the seat gets to see instead.
    open spec fn discloses(&self, seat: PlayerID, shown: Self) -> bool {
        false
    }

    /// Tests a move against the rules and leaves the state alone.
    fn validate_move(&self, qmove: Self::Move) -> (verdict: Result<(), ValidationError>)
        requires
            self.inv(),
        ensures
            verdict is Ok <==> self.accepts(qmove),
    ;

    /// Applies a move that `validate_move` accepted in this very state.
    fn apply_move(&mut self, qmove: Self::Move) -> (result: MoveResult)
        requires
            old(self).inv(),
            old(self).accepts(qmove),
        ensures
            *final(self) == old(self).after(qmove),
            result == old(self).outcome(qmove),
            final(self).inv(),
    ;

    /// The authoritative starting state.
    fn initial_server() -> (game: Self)
        ensures
            game.inv(),
    ;

    /// The view of the state that `seat` receives when the game starts: a copy
    /// of the state, or, in a game with hidden information, a view that the
    /// game's model discloses to that seat. The state itself is left alone.
    fn initial_for_player(&self, seat: PlayerID) -> (shown: Self)
        requires
            self.inv(),
            seat < Self::PLAYER_COUNT,
        ensures
            cloned(*self, shown) || self.discloses(seat, shown),
    {
        self.clone()
    }

    /// The seat whose move is awaited: always one of the game's seats.
    fn turn_of(&self) -> (seat: u8)
        requires
            self.inv(),
        ensures
            seat == self.on_turn(),
            seat < Self::PLAYER_COUNT,
    ;
}

/// What the engine tells a seat.
pub enum GameEvent<G: Game> {
    /// The game begins; carries the seat's view of the state and the seat's own number.
    GameStart(G, PlayerID),
    /// A legal move was made.
    MoveHappened(G::Move),
    /// The receiving seat is to move.
    YourTurn,
    /// The receiving seat's move was applied.
    ValidMove,
    /// The receiving seat's move was rejected.
    InvalidMove,
    /// Another participant left.
    OpponentQuit,
    /// The game is over; `None` is a draw.
    GameEnd(Option<PlayerID>),
}

} // verus!
