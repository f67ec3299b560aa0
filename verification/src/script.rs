//! What the engine says, to whom and in which order: the model that the engine's
//! contracts are stated over.

use crate::game::{Game, GameEvent, MoveResult, PlayerID};
use vstd::prelude::*;

verus! {

/// One event on its way to one seat.
pub struct Delivery<G: Game> {
    pub seat: PlayerID,
    pub event: GameEvent<G>,
}

/// `event` for every seat, in ascending seat order.
pub open spec fn to_all<G: Game>(event: GameEvent<G>) -> Seq<Delivery<G>> {
    Seq::new(G::PLAYER_COUNT as nat, |i: int| Delivery { seat: i as PlayerID, event })
}

/// Whether `script` opens a game in state `game`: each seat in ascending order
/// gets `GameStart` with its own number and a view that the game hands out for
/// it, a copy of the state or what the game discloses to that seat, then the
/// seat on turn gets `YourTurn`.
pub open spec fn is_opening<G: Game>(game: G, script: Seq<Delivery<G>>) -> bool {
    &&& script.len() == G::PLAYER_COUNT + 1
    &&& forall|i: int|
        0 <= i < G::PLAYER_COUNT ==> {
            &&& (#[trigger] script[i]).seat == i
            &&& script[i].event matches GameEvent::GameStart(shown, seat)
            &&& seat == i
            &&& call_ensures(G::initial_for_player, (&game, seat), shown)
            &&& cloned(game, shown) || game.discloses(seat, shown)
        }
    &&& script[G::PLAYER_COUNT as int] == Delivery::<G> {
        seat: game.on_turn(),
        event: GameEvent::YourTurn,
    }
}

/// What follows the announcement of a legal move: the mover learns that the
/// move stood and the seat then on turn is called, or everyone learns how the
/// game ended.
pub open spec fn follow_up<G: Game>(mover: PlayerID, result: MoveResult, next: PlayerID) -> Seq<
    Delivery<G>,
> {
    match result {
        MoveResult::Continue => seq![
            Delivery { seat: mover, event: GameEvent::ValidMove },
            Delivery { seat: next, event: GameEvent::YourTurn },
        ],
        MoveResult::Draw => to_all(GameEvent::GameEnd(None)),
        MoveResult::Win(winner) => to_all(GameEvent::GameEnd(Some(winner))),
    }
}

/// Everything the engine says in answer to `qmove`, proposed in state `game` by
/// the seat on turn.
pub open spec fn move_script<G: Game>(game: G, qmove: G::Move) -> Seq<Delivery<G>> {
    if game.accepts(qmove) {
        to_all(GameEvent::MoveHappened(qmove)) + follow_up(
            game.on_turn(),
            game.outcome(qmove),
            game.after(qmove).on_turn(),
        )
    } else {
        seq![Delivery { seat: game.on_turn(), event: GameEvent::InvalidMove }]
    }
}

/// The state that answering `qmove` leaves behind: only a legal move changes it.
pub open spec fn move_state<G: Game>(game: G, qmove: G::Move) -> G {
    if game.accepts(qmove) {
        game.after(qmove)
    } else {
        game
    }
}

/// Whether answering `qmove` ends the game.
pub open spec fn move_ends<G: Game>(game: G, qmove: G::Move) -> bool {
    game.accepts(qmove) && !(game.outcome(qmove) is Continue)
}

/// Whether `log` begins as every game does: its first entries are one
/// `GameStart` for every seat in ascending order, something follows them, and
/// no `GameStart` stands anywhere else.
pub open spec fn starts_once<G: Game>(log: Seq<Delivery<G>>) -> bool {
    &&& log.len() > G::PLAYER_COUNT
    &&& forall|i: int| 0 <= i < G::PLAYER_COUNT ==> (#[trigger] log[i]).seat == i
    &&& forall|i: int|
        0 <= i < log.len() ==> ((#[trigger] log[i]).event is GameStart <==> i < G::PLAYER_COUNT)
}

/// The seat that the most recent `YourTurn` in `log` went to.
pub open spec fn last_called<G: Game>(log: Seq<Delivery<G>>) -> Option<PlayerID>
    decreases log.len(),
{
    if log.len() == 0 {
        None
    } else if log.last().event is YourTurn {
        Some(log.last().seat)
    } else {
        last_called(log.drop_last())
    }
}

/// Whether no `GameEnd` is among `log`.
pub open spec fn no_end<G: Game>(log: Seq<Delivery<G>>) -> bool {
    forall|i: int| 0 <= i < log.len() ==> !((#[trigger] log[i]).event is GameEnd)
}

/// Whether `log` is that of a game that ran to its end: its last entries are one
/// `GameEnd` for every seat in ascending order, all with the same outcome, and
/// no `GameEnd` stands before them.
pub open spec fn ends_once<G: Game>(log: Seq<Delivery<G>>) -> bool {
    &&& G::PLAYER_COUNT >= 1
    &&& log.len() >= G::PLAYER_COUNT
    &&& log.last().event is GameEnd
    &&& log.subrange(log.len() - G::PLAYER_COUNT, log.len() as int) == to_all(log.last().event)
    &&& no_end(log.take(log.len() - G::PLAYER_COUNT))
}

/// Whoever is called to move is the seat on turn in the state that the answered
/// move left behind: a `YourTurn` in the answer to a move goes to the seat that
/// the state after the move names.
pub proof fn law_called_seat_is_on_turn<G: Game>(game: G, qmove: G::Move, at: int)
    requires
        0 <= at < move_script(game, qmove).len(),
        move_script(game, qmove)[at].event is YourTurn,
    ensures
        game.accepts(qmove),
        game.outcome(qmove) is Continue,
        at == move_script(game, qmove).len() - 1,
        move_script(game, qmove)[at].seat == move_state(game, qmove).on_turn(),
{
}

/// The one `YourTurn` of an opening goes to the seat on turn in the starting state.
pub proof fn law_first_call_is_on_turn<G: Game>(game: G, script: Seq<Delivery<G>>, at: int)
    requires
        is_opening(game, script),
        0 <= at < script.len(),
        script[at].event is YourTurn,
    ensures
        at == G::PLAYER_COUNT,
        script[at].seat == game.on_turn(),
{
}

/// A rejected move is answered by exactly one event, `InvalidMove` to the seat
/// that proposed it, and leaves the state as it was.
pub proof fn law_rejection_is_private<G: Game>(game: G, qmove: G::Move)
    requires
        !game.accepts(qmove),
    ensures
        move_script(game, qmove) == seq![
            Delivery::<G> { seat: game.on_turn(), event: GameEvent::InvalidMove },
        ],
        move_state(game, qmove) == game,
        !move_ends(game, qmove),
{
}

/// A legal move is announced to every seat, in ascending seat order, before
/// anything else is said of it: the answer begins with one `MoveHappened` per
/// seat, and every `ValidMove`, `YourTurn` and `GameEnd` in it comes after them.
pub proof fn law_move_is_announced_first<G: Game>(game: G, qmove: G::Move)
    requires
        game.accepts(qmove),
    ensures
        move_script(game, qmove).len() >= G::PLAYER_COUNT,
        move_script(game, qmove).take(G::PLAYER_COUNT as int) == to_all::<G>(
            GameEvent::MoveHappened(qmove),
        ),
        forall|i: int|
            0 <= i < G::PLAYER_COUNT ==> #[trigger] move_script(game, qmove)[i] == (Delivery::<G> {
                seat: i as PlayerID,
                event: GameEvent::MoveHappened(qmove),
            }),
        forall|i: int|
            G::PLAYER_COUNT <= i < move_script(game, qmove).len() ==> {
                let event = (#[trigger] move_script(game, qmove)[i]).event;
                event is ValidMove || event is YourTurn || event is GameEnd
            },
{
}

/// A move that ends the game is answered, after its announcement, by one
/// `GameEnd` per seat in ascending seat order, all with the outcome that the
/// game reported, and by no `YourTurn`.
pub proof fn law_last_move_ends_for_all<G: Game>(game: G, qmove: G::Move)
    requires
        move_ends(game, qmove),
    ensures
        move_script(game, qmove) == to_all::<G>(GameEvent::MoveHappened(qmove)) + to_all::<G>(
            GameEvent::GameEnd(
                match game.outcome(qmove) {
                    MoveResult::Win(winner) => Some(winner),
                    _ => None,
                },
            ),
        ),
        forall|i: int|
            0 <= i < move_script(game, qmove).len() ==> !((#[trigger] move_script(
                game,
                qmove,
            )[i]).event is YourTurn),
{
}

/// No answer to a move, and no part of one, holds a `GameStart`: a log that
/// begins as every game does still does so when such a part is added.
pub proof fn lemma_starts_kept<G: Game>(log: Seq<Delivery<G>>, game: G, qmove: G::Move, k: int)
    requires
        starts_once(log),
        0 <= k <= move_script(game, qmove).len(),
    ensures
        starts_once(log + move_script(game, qmove).take(k)),
{
}

/// The most recent `YourTurn` of a log that ends in one is that last entry.
pub proof fn lemma_called_last<G: Game>(log: Seq<Delivery<G>>)
    requires
        log.len() > 0,
        log.last().event is YourTurn,
    ensures
        last_called(log) == Some(log.last().seat),
{
}

/// An event other than `YourTurn` leaves the most recent `YourTurn` what it was.
pub proof fn lemma_called_kept<G: Game>(log: Seq<Delivery<G>>, next: Delivery<G>)
    requires
        !(next.event is YourTurn),
    ensures
        last_called(log.push(next)) == last_called(log),
{
    assert(log.push(next).drop_last() =~= log);
}

} // verus!
