//! The turn engine: owns one running game and answers one move at a time.

use crate::channel::{AgentCore, AntiCore};
use crate::game::{Game, GameEvent, MoveResult, PlayerID};
use crate::script::{
    ends_once, is_opening, last_called, lemma_called_kept, lemma_called_last, lemma_starts_kept,
    move_ends, move_script, move_state, no_end, starts_once, to_all, Delivery,
};
use crossbeam_channel::SendError;
use vstd::prelude::*;

verus! {

/// Where an engine stands.
#[derive(Clone, Copy, PartialEq, Eq, Debug)]
pub enum Phase {
    /// The game goes on: the seat on turn is awaited.
    Running,
    /// The game ran to its end and every seat was told.
    Finished,
    /// The event queue of the given seat was found closed; the game is given up.
    Aborted(PlayerID),
}

/// Why an engine gave its game up.
#[derive(Clone, Copy, PartialEq, Eq, Debug)]
pub enum EngineError {
    /// The event queue of the given seat has lost its receiving end.
    ChannelClosed(PlayerID),
}

/// One game in progress, with the engine's half of every seat's queues.
#[verifier::reject_recursive_types(G)]
pub struct TurnEngine<G: Game> {
    game: G,
    seats: Vec<AntiCore<G>>,
    phase: Phase,
    log: Ghost<Seq<Delivery<G>>>,
}

/// Sets up a game: one pair of queues per seat, the starting state, and the
/// opening events on the queues. Returns the participants' halves of the
/// queues, by seat, and the engine that holds the other halves.
pub fn new_game<G: Game>() -> (made: Result<(Vec<AgentCore<G>>, TurnEngine<G>), EngineError>)
    ensures
        match made {
            Ok((cores, engine)) => {
                &&& cores@.len() == G::PLAYER_COUNT
                &&& engine.wf()
                &&& engine.stage() == Phase::Running
                &&& call_ensures(G::initial_server, (), engine.state())
                &&& is_opening(engine.state(), engine.log())
            },
            Err(EngineError::ChannelClosed(seat)) => seat < G::PLAYER_COUNT,
        },
{
    let game = G::initial_server();
    let mut cores: Vec<AgentCore<G>> = Vec::new();
    let mut seats: Vec<AntiCore<G>> = Vec::new();
    let mut seat: PlayerID = 0;
    while seat < G::PLAYER_COUNT
        invariant
            seat <= G::PLAYER_COUNT,
            cores@.len() == seat,
            seats@.len() == seat,
        decreases G::PLAYER_COUNT - seat,
    {
        let (move_in, move_out) = crossbeam_channel::unbounded::<G::Move>();
        let (event_in, event_out) = crossbeam_channel::unbounded::<GameEvent<G>>();
        cores.push(AgentCore { move_channel: move_in, event_channel: event_out });
        seats.push(AntiCore { move_channel: move_out, event_channel: event_in });
        seat = seat + 1;
    }
    let mut engine = TurnEngine { game, seats, phase: Phase::Running, log: Ghost(Seq::empty()) };
    let mut seat: PlayerID = 0;
    while seat < G::PLAYER_COUNT
        invariant
            seat <= G::PLAYER_COUNT,
            engine.seats@.len() == G::PLAYER_COUNT,
            engine.game == game,
            game.inv(),
            engine.phase == Phase::Running,
            engine.log@.len() == seat,
            forall|i: int|
                0 <= i < seat ==> {
                    &&& (#[trigger] engine.log@[i]).seat == i
                    &&& engine.log@[i].event matches GameEvent::GameStart(shown, to)
                    &&& to == i
                    &&& call_ensures(G::initial_for_player, (&game, to), shown)
                    &&& cloned(game, shown) || game.discloses(to, shown)
                },
        decreases G::PLAYER_COUNT - seat,
    {
        let shown = engine.game.initial_for_player(seat);
        if !engine.emit(seat, GameEvent::GameStart(shown, seat)) {
            return Err(EngineError::ChannelClosed(seat));
        }
        seat = seat + 1;
    }
    let first = engine.game.turn_of();
    if !engine.emit(first, GameEvent::YourTurn) {
        return Err(EngineError::ChannelClosed(first));
    }
    proof {
        lemma_called_last(engine.log@);
    }
    Ok((cores, engine))
}

/// A copy of an event: the same event again, unless it carries a game state,
/// whose copy is whatever the game's `clone` makes of it.
fn restate<G: Game>(event: &GameEvent<G>) -> (copy: GameEvent<G>)
    ensures
        !(event is GameStart) ==> copy == *event,
{
    match event {
        GameEvent::GameStart(shown, seat) => GameEvent::GameStart(shown.clone(), *seat),
        GameEvent::MoveHappened(qmove) => GameEvent::MoveHappened(*qmove),
        GameEvent::YourTurn => GameEvent::YourTurn,
        GameEvent::ValidMove => GameEvent::ValidMove,
        GameEvent::InvalidMove => GameEvent::InvalidMove,
        GameEvent::OpponentQuit => GameEvent::OpponentQuit,
        GameEvent::GameEnd(winner) => GameEvent::GameEnd(*winner),
    }
}

impl<G: Game> TurnEngine<G> {
    /// The game's state.
    pub closed spec fn state(&self) -> G {
        self.game
    }

    /// Every event that the engine has put on a seat's queue, oldest first.
    pub closed spec fn log(&self) -> Seq<Delivery<G>> {
        self.log@
    }

    /// Where the engine stands.
    pub closed spec fn stage(&self) -> Phase {
        self.phase
    }

    /// What holds of an engine between any two calls: it has one pair of queues
    /// per seat; the first thing it told each seat is `GameStart`, and it said
    /// that once; while the game runs, the most recent `YourTurn` went to the seat
    /// on turn and no `GameEnd` was sent; once it is finished, every seat got
    /// exactly one `GameEnd`, as the last thing it was told.
    pub closed spec fn wf(&self) -> bool {
        &&& self.seats@.len() == G::PLAYER_COUNT
        &&& self.game.inv()
        &&& starts_once(self.log@)
        &&& match self.phase {
            Phase::Running => {
                &&& self.game.on_turn() < G::PLAYER_COUNT
                &&& last_called(self.log@) == Some(self.game.on_turn())
                &&& no_end(self.log@)
            },
            Phase::Finished => ends_once(self.log@),
            Phase::Aborted(seat) => seat < G::PLAYER_COUNT,
        }
    }

    /// Whether the engine in state `after` gave up while it answered `qmove` from
    /// state `self`, because the queue of `seat` was closed: it said a part of its
    /// answer, up to the event meant for that queue, and the move was applied if
    /// it was legal and every seat had been told of it.
    pub open spec fn cut_short(&self, qmove: G::Move, seat: PlayerID, after: &Self) -> bool {
        let script = move_script(self.state(), qmove);
        exists|k: int|
            {
                &&& 0 <= k < script.len()
                &&& script[k].seat == seat
                &&& after.log() == self.log() + #[trigger] script.take(k)
                &&& after.state() == if self.state().accepts(qmove) && k >= G::PLAYER_COUNT {
                    self.state().after(qmove)
                } else {
                    self.state()
                }
            }
    }

    /// Whether `after` and `result` are what answering `qmove` makes of the
    /// engine `self`.
    pub open spec fn answers(
        &self,
        qmove: G::Move,
        after: &Self,
        result: Result<(), EngineError>,
    ) -> bool {
        match self.stage() {
            Phase::Running => match result {
                Ok(()) => {
                    &&& after.log() == self.log() + move_script(self.state(), qmove)
                    &&& after.state() == move_state(self.state(), qmove)
                    &&& after.stage() == if move_ends(self.state(), qmove) {
                        Phase::Finished
                    } else {
                        Phase::Running
                    }
                },
                Err(EngineError::ChannelClosed(seat)) => {
                    &&& after.stage() == Phase::Aborted(seat)
                    &&& self.cut_short(qmove, seat, after)
                },
            },
            Phase::Finished => result is Ok && self.same_as(after),
            Phase::Aborted(seat) => result == Err::<(), _>(EngineError::ChannelClosed(seat))
                && self.same_as(after),
        }
    }

    /// Whether nothing was said and nothing changed between `self` and `after`.
    pub open spec fn same_as(&self, after: &Self) -> bool {
        &&& after.log() == self.log()
        &&& after.state() == self.state()
        &&& after.stage() == self.stage()
    }

    /// Every seat was told first of all that the game begins, and was told so
    /// once: `GameStart` for `seat` stands at its place among the first entries
    /// of the log, before every other entry for that seat, and nowhere else.
    pub proof fn law_started(self, seat: PlayerID)
        requires
            self.wf(),
            seat < G::PLAYER_COUNT,
        ensures
            starts_once(self.log()),
            self.log()[seat as int].seat == seat,
            self.log()[seat as int].event is GameStart,
            forall|i: int|
                0 <= i < self.log().len() && i != seat && (#[trigger] self.log()[i]).seat == seat
                    ==> i > seat && !(self.log()[i].event is GameStart),
    {
    }

    /// While a game runs, the seat that was called last is the seat on turn in
    /// the current state, the one that the most recently applied move left, and
    /// nobody has been told that the game ended.
    pub proof fn law_running(self)
        requires
            self.wf(),
            self.stage() is Running,
        ensures
            self.state().on_turn() < G::PLAYER_COUNT,
            last_called(self.log()) == Some(self.state().on_turn()),
            no_end(self.log()),
    {
    }

    /// When a game has run to its end, every seat was told so exactly once, and
    /// nothing was put on its queue after that: `GameEnd` for `seat` stands at
    /// one place of the log, no other `GameEnd` goes to that seat, and no later
    /// entry goes to it.
    pub proof fn law_finished(self, seat: PlayerID)
        requires
            self.wf(),
            self.stage() is Finished,
            seat < G::PLAYER_COUNT,
        ensures
            ends_once(self.log()),
            ({
                let log = self.log();
                let at = log.len() - G::PLAYER_COUNT + seat;
                &&& 0 <= at < log.len()
                &&& log[at].seat == seat
                &&& log[at].event is GameEnd
                &&& log[at].event == log.last().event
                &&& forall|i: int|
                    0 <= i < log.len() && i != at && (#[trigger] log[i]).seat == seat ==> !(log[i].event
                        is GameEnd)
                &&& forall|i: int| at < i < log.len() ==> (#[trigger] log[i]).seat != seat
            }),
    {
        let log = self.log();
        let base = log.len() - G::PLAYER_COUNT;
        let tail = log.subrange(base, log.len() as int);
        assert forall|i: int| base <= i < log.len() implies (#[trigger] log[i]).seat == i - base
            && log[i].event == log.last().event by {
            assert(log[i] == tail[i - base]);
        }
        assert forall|i: int| 0 <= i < base implies !((#[trigger] log[i]).event is GameEnd) by {
            assert(log[i] == log.take(base)[i]);
        }
    }

    /// Where the engine stands.
    pub fn phase(&self) -> (phase: Phase)
        ensures
            phase == self.stage(),
    {
        self.phase
    }

    /// The game's state.
    pub fn game(&self) -> (game: &G)
        ensures
            *game == self.state(),
    {
        &self.game
    }

    /// Answers one move of the seat on turn. A rejected move is reported to that
    /// seat alone and changes nothing. A legal move is announced to every seat
    /// and applied; then the mover is told that it stood and the next seat is
    /// called, or every seat is told how the game ended. An engine whose game is
    /// over says nothing and changes nothing. The first closed queue ends the
    /// game at once.
    pub fn handle_move(&mut self, qmove: G::Move) -> (result: Result<(), EngineError>)
        requires
            old(self).wf(),
        ensures
            final(self).wf(),
            old(self).answers(qmove, final(self), result),
    {
        match self.phase {
            Phase::Finished => {
                return Ok(());
            },
            Phase::Aborted(seat) => {
                return Err(EngineError::ChannelClosed(seat));
            },
            Phase::Running => {},
        }
        let mover = self.game.turn_of();
        match self.game.validate_move(qmove) {
            Ok(()) => self.accept(mover, qmove),
            Err(_) => self.reject(mover, qmove),
        }
    }

    /// Looks for a move of the seat on turn, without waiting, and answers it as
    /// `handle_move` does if there is one; if there is none, nothing happens. No
    /// other seat's queue is looked at, and none at all once the game is over.
    pub fn step(&mut self) -> (result: Result<(), EngineError>)
        requires
            old(self).wf(),
        ensures
            final(self).wf(),
            match old(self).stage() {
                Phase::Running => {
                    ||| result is Ok && old(self).same_as(final(self))
                    ||| exists|qmove: G::Move| old(self).answers(qmove, final(self), result)
                },
                Phase::Finished => result is Ok && old(self).same_as(final(self)),
                Phase::Aborted(seat) => result == Err::<(), _>(EngineError::ChannelClosed(seat))
                    && old(self).same_as(final(self)),
            },
    {
        match self.phase {
            Phase::Finished => {
                return Ok(());
            },
            Phase::Aborted(seat) => {
                return Err(EngineError::ChannelClosed(seat));
            },
            Phase::Running => {},
        }
        let on_turn = self.game.turn_of();
        match self.seats[on_turn as usize].move_channel.try_recv() {
            Ok(qmove) => self.handle_move(qmove),
            Err(_) => Ok(()),
        }
    }

    /// Gives the game up over the closed queue of `seat`.
    fn give_up(&mut self, seat: PlayerID) -> (result: Result<(), EngineError>)
        ensures
            final(self).game == old(self).game,
            final(self).seats == old(self).seats,
            final(self).log == old(self).log,
            final(self).phase == Phase::Aborted(seat),
            result == Err::<(), _>(EngineError::ChannelClosed(seat)),
    {
        self.phase = Phase::Aborted(seat);
        Err(EngineError::ChannelClosed(seat))
    }

    /// Tells the mover that its move does not stand.
    fn reject(&mut self, mover: PlayerID, qmove: G::Move) -> (result: Result<(), EngineError>)
        requires
            old(self).wf(),
            old(self).phase == Phase::Running,
            mover == old(self).game.on_turn(),
            !old(self).game.accepts(qmove),
        ensures
            final(self).wf(),
            old(self).answers(qmove, final(self), result),
    {
        let ghost script = move_script(self.game, qmove);
        if !self.emit(mover, GameEvent::InvalidMove) {
            let result = self.give_up(mover);
            proof {
                assert(self.log@ =~= old(self).log@ + script.take(0));
            }
            return result;
        }
        proof {
            assert(self.log@ =~= old(self).log@ + script);
            lemma_starts_kept(old(self).log@, old(self).game, qmove, 1);
            lemma_called_kept(old(self).log@, script[0]);
        }
        Ok(())
    }

    /// Announces a legal move, applies it and says what came of it.
    fn accept(&mut self, mover: PlayerID, qmove: G::Move) -> (result: Result<(), EngineError>)
        requires
            old(self).wf(),
            old(self).phase == Phase::Running,
            mover == old(self).game.on_turn(),
            old(self).game.accepts(qmove),
        ensures
            final(self).wf(),
            old(self).answers(qmove, final(self), result),
    {
        let ghost script = move_script(self.game, qmove);
        let ghost news = to_all::<G>(GameEvent::MoveHappened(qmove));
        let ghost count = G::PLAYER_COUNT as int;
        if let Some(seat) = self.broadcast(&GameEvent::MoveHappened(qmove)) {
            let result = self.give_up(seat);
            proof {
                assert(script.take(seat as int) =~= news.take(seat as int));
                lemma_starts_kept(old(self).log@, old(self).game, qmove, seat as int);
            }
            return result;
        }
        let outcome = self.game.apply_move(qmove);
        assert(script.take(count) =~= news);
        match outcome {
            MoveResult::Continue => {
                if !self.emit(mover, GameEvent::ValidMove) {
                    let result = self.give_up(mover);
                    proof {
                        lemma_starts_kept(old(self).log@, old(self).game, qmove, count);
                    }
                    return result;
                }
                let next = self.game.turn_of();
                if !self.emit(next, GameEvent::YourTurn) {
                    let result = self.give_up(next);
                    proof {
                        assert(self.log@ =~= old(self).log@ + script.take(count + 1));
                        lemma_starts_kept(old(self).log@, old(self).game, qmove, count + 1);
                    }
                    return result;
                }
                proof {
                    assert(self.log@ =~= old(self).log@ + script);
                    lemma_starts_kept(old(self).log@, old(self).game, qmove, count + 2);
                    lemma_called_last(self.log@);
                }
                Ok(())
            },
            MoveResult::Draw => self.close(Ghost(*old(self)), qmove, None),
            MoveResult::Win(winner) => self.close(Ghost(*old(self)), qmove, Some(winner)),
        }
    }

    /// Tells every seat how the game ended.
    fn close(
        &mut self,
        Ghost(before): Ghost<Self>,
        qmove: G::Move,
        winner: Option<PlayerID>,
    ) -> (result: Result<(), EngineError>)
        requires
            before.wf(),
            before.phase == Phase::Running,
            before.game.accepts(qmove),
            before.game.outcome(qmove) == (match winner {
                Some(seat) => MoveResult::Win(seat),
                None => MoveResult::Draw,
            }),
            old(self).game == before.game.after(qmove),
            old(self).game.inv(),
            old(self).seats == before.seats,
            old(self).phase == before.phase,
            old(self).log@ == before.log@ + to_all::<G>(GameEvent::MoveHappened(qmove)),
        ensures
            final(self).wf(),
            before.answers(qmove, final(self), result),
    {
        let ghost script = move_script(before.game, qmove);
        let ghost last = to_all::<G>(GameEvent::GameEnd(winner));
        let ghost count = G::PLAYER_COUNT as int;
        if let Some(seat) = self.broadcast(&GameEvent::GameEnd(winner)) {
            let result = self.give_up(seat);
            proof {
                assert(self.log@ =~= before.log@ + script.take(count + seat));
                lemma_starts_kept(before.log@, before.game, qmove, count + seat);
            }
            return result;
        }
        self.phase = Phase::Finished;
        proof {
            let log = self.log@;
            assert(log =~= before.log@ + script);
            lemma_starts_kept(before.log@, before.game, qmove, 2 * count);
            assert(log.subrange(log.len() - count, log.len() as int) =~= last);
        }
        Ok(())
    }

    /// Puts `event` on the queue of `seat` and tells whether the queue took it.
    fn emit(&mut self, seat: PlayerID, event: GameEvent<G>) -> (taken: bool)
        requires
            seat < old(self).seats@.len(),
        ensures
            final(self).game == old(self).game,
            final(self).seats == old(self).seats,
            final(self).phase == old(self).phase,
            taken ==> final(self).log@ == old(self).log@.push(Delivery { seat, event }),
            !taken ==> final(self).log@ == old(self).log@,
    {
        let ghost sent = Delivery { seat, event };
        let outcome = self.seats[seat as usize].event_channel.send(event);
        self.note(Ghost(sent), outcome)
    }

    /// Takes down what became of putting `sent` on its queue: the log grows by
    /// it exactly when the queue took it.
    fn note(
        &mut self,
        Ghost(sent): Ghost<Delivery<G>>,
        outcome: Result<(), SendError<GameEvent<G>>>,
    ) -> (taken: bool)
        ensures
            taken <==> outcome is Ok,
            final(self).game == old(self).game,
            final(self).seats == old(self).seats,
            final(self).phase == old(self).phase,
            final(self).log@ == if outcome is Ok {
                old(self).log@.push(sent)
            } else {
                old(self).log@
            },
    {
        match outcome {
            Ok(()) => {
                self.log = Ghost(self.log@.push(sent));
                true
            },
            Err(_) => false,
        }
    }

    /// Puts `event` on every seat's queue in ascending seat order, up to the
    /// first queue that is closed, and names that seat.
    fn broadcast(&mut self, event: &GameEvent<G>) -> (closed: Option<PlayerID>)
        requires
            !(event is GameStart),
            old(self).seats@.len() == G::PLAYER_COUNT,
        ensures
            final(self).game == old(self).game,
            final(self).seats == old(self).seats,
            final(self).phase == old(self).phase,
            closed is None ==> final(self).log@ == old(self).log@ + to_all(*event),
            closed matches Some(seat) ==> seat < G::PLAYER_COUNT && final(self).log@ == old(
                self,
            ).log@ + to_all(*event).take(seat as int),
    {
        let mut seat: PlayerID = 0;
        while seat < G::PLAYER_COUNT
            invariant
                seat <= G::PLAYER_COUNT,
                !(event is GameStart),
                self.seats@.len() == G::PLAYER_COUNT,
                self.game == old(self).game,
                self.seats == old(self).seats,
                self.phase == old(self).phase,
                self.log@ == old(self).log@ + to_all(*event).take(seat as int),
            decreases G::PLAYER_COUNT - seat,
        {
            if !self.emit(seat, restate(event)) {
                return Some(seat);
            }
            assert(to_all(*event).take(seat + 1) =~= to_all(*event).take(seat as int).push(
                Delivery { seat, event: *event },
            ));
            seat = seat + 1;
        }
        assert(to_all(*event).take(G::PLAYER_COUNT as int) =~= to_all(*event));
        None
    }
}

} // verus!
