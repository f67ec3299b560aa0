//! The queues between the engine and a seat, and what is taken on trust of the
//! queue library that provides them.
//!
//! A queue's other end is in somebody else's hands, so what a call on a queue
//! returns is never a function of its arguments: nothing is claimed of any
//! result here. The engine's contracts say what holds whichever way a call
//! went.

use crate::game::{Game, GameEvent};
use crossbeam_channel::{Receiver, SendError, Sender, TryRecvError};
use vstd::prelude::*;

verus! {

/// `crossbeam_channel::Sender`, the sending end of a queue; nothing is known of
/// what is inside.
#[verifier::external_type_specification]
#[verifier::external_body]
#[verifier::reject_recursive_types(T)]
pub struct ExSender<T>(Sender<T>);

/// `crossbeam_channel::Receiver`, the receiving end of a queue; nothing is
/// known of what is inside.
#[verifier::external_type_specification]
#[verifier::external_body]
#[verifier::reject_recursive_types(T)]
pub struct ExReceiver<T>(Receiver<T>);

/// `crossbeam_channel::SendError`, which hands back a message that could not
/// be sent.
#[verifier::external_type_specification]
#[verifier::external_body]
#[verifier::reject_recursive_types(T)]
pub struct ExSendError<T>(SendError<T>);

/// `crossbeam_channel::TryRecvError`, which says why no message was received.
#[verifier::external_type_specification]
#[verifier::external_body]
pub struct ExTryRecvError(TryRecvError);

/// `crossbeam_channel::unbounded` makes a queue that holds any number of
/// messages and returns its two ends. It is only taken to return.
pub assume_specification<T>[ crossbeam_channel::unbounded::<T> ]() -> (ends: (
    Sender<T>,
    Receiver<T>,
));

/// `Sender::send` puts `msg` on the queue, or fails, handing `msg` back, when
/// no receiving end is left. On a queue made by `unbounded` it does not wait,
/// and the engine sends on no other. It is only taken to return.
pub assume_specification<T>[ Sender::<T>::send ](tx: &Sender<T>, msg: T) -> (sent: Result<
    (),
    SendError<T>,
>);

/// `Receiver::try_recv` takes the oldest message off the queue, or fails when
/// none is there; it never waits. It is only taken to return.
pub assume_specification<T>[ Receiver::<T>::try_recv ](rx: &Receiver<T>) -> (got: Result<
    T,
    TryRecvError,
>);

/// `Sender::clone` makes one more handle on the same queue's sending end. It
/// is only taken to return.
pub assume_specification<T>[ <Sender<T> as Clone>::clone ](tx: &Sender<T>) -> (twin: Sender<T>);

/// `Receiver::clone` makes one more handle on the same queue's receiving end.
/// It is only taken to return.
pub assume_specification<T>[ <Receiver<T> as Clone>::clone ](rx: &Receiver<T>) -> (twin: Receiver<
    T,
>);

/// A participant's half of a seat's queues: moves go in, events come out.
#[derive(Clone)]
#[verifier::reject_recursive_types(G)]
pub struct AgentCore<G: Game> {
    pub move_channel: Sender<G::Move>,
    pub event_channel: Receiver<GameEvent<G>>,
}

/// The engine's half of a seat's queues: moves come out, events go in.
#[verifier::reject_recursive_types(G)]
pub(crate) struct AntiCore<G: Game> {
    pub(crate) move_channel: Receiver<G::Move>,
    pub(crate) event_channel: Sender<GameEvent<G>>,
}

} // verus!
