//! Length-prefixed framing: how messages keep their boundaries on a byte stream.
//!
//! A frame is a header of `HEADER_LEN` bytes, the payload's length in big-endian
//! order, followed by the payload. A stream is frames back to back. No payload
//! is longer than `MAX_PAYLOAD` bytes: a longer one is not framed, and a header
//! that announces more is taken for a broken stream.

use vstd::prelude::*;
use vstd::slice::{slice_subrange, slice_to_vec};

verus! {

/// The number of bytes in a frame's header.
pub const HEADER_LEN: usize = 4;

/// The longest payload that a frame may carry.
pub const MAX_PAYLOAD: usize = 0xFF_FFFF;

/// What stops a stream.
#[derive(Clone, Copy, PartialEq, Eq, Debug)]
pub enum FrameError {
    /// A payload to be sent is longer than `MAX_PAYLOAD` bytes.
    TooLong,
    /// A header that arrived announces more than `MAX_PAYLOAD` bytes.
    Malformed,
}

/// The header that announces a payload of `len` bytes.
pub open spec fn header(len: nat) -> Seq<u8> {
    seq![
        (len / 0x100_0000) as u8,
        ((len / 0x1_0000) % 0x100) as u8,
        ((len / 0x100) % 0x100) as u8,
        (len % 0x100) as u8,
    ]
}

/// The frame of one payload.
pub open spec fn frame(payload: Seq<u8>) -> Seq<u8> {
    header(payload.len()) + payload
}

/// The stream that carries `payloads` in order.
pub open spec fn wire(payloads: Seq<Seq<u8>>) -> Seq<u8>
    decreases payloads.len(),
{
    if payloads.len() == 0 {
        Seq::empty()
    } else {
        frame(payloads.first()) + wire(payloads.drop_first())
    }
}

/// Whether every payload is short enough to be framed.
pub open spec fn all_fit(payloads: Seq<Seq<u8>>) -> bool {
    forall|i: int| 0 <= i < payloads.len() ==> (#[trigger] payloads[i]).len() <= MAX_PAYLOAD
}

/// The payload length that the first `HEADER_LEN` bytes announce.
pub open spec fn announced(bytes: Seq<u8>) -> nat {
    (bytes[0] * 0x100_0000 + bytes[1] * 0x1_0000 + bytes[2] * 0x100 + bytes[3]) as nat
}

/// Whether `bytes` begin with a whole frame.
pub open spec fn starts_whole(bytes: Seq<u8>) -> bool {
    &&& bytes.len() >= HEADER_LEN
    &&& announced(bytes) <= MAX_PAYLOAD
    &&& bytes.len() - HEADER_LEN >= announced(bytes)
}

/// Whether `bytes` begin with a header that no frame can have.
pub open spec fn starts_bad(bytes: Seq<u8>) -> bool {
    bytes.len() >= HEADER_LEN && announced(bytes) > MAX_PAYLOAD
}

/// The payload of the frame that `bytes` begin with.
pub open spec fn first_payload(bytes: Seq<u8>) -> Seq<u8> {
    bytes.subrange(HEADER_LEN as int, HEADER_LEN + announced(bytes))
}

/// What follows the frame that `bytes` begin with.
pub open spec fn past_first(bytes: Seq<u8>) -> Seq<u8> {
    bytes.skip(HEADER_LEN + announced(bytes))
}

/// The payloads of the whole frames at the start of `bytes`, in order.
pub open spec fn frames(bytes: Seq<u8>) -> Seq<Seq<u8>>
    decreases bytes.len(),
{
    if starts_whole(bytes) {
        seq![first_payload(bytes)] + frames(past_first(bytes))
    } else {
        Seq::empty()
    }
}

/// What is left of `bytes` behind their whole frames: nothing, the beginning of
/// a frame that has not arrived in full, or a stream that is broken from there on.
pub open spec fn residue(bytes: Seq<u8>) -> Seq<u8>
    decreases bytes.len(),
{
    if starts_whole(bytes) {
        residue(past_first(bytes))
    } else {
        bytes
    }
}

/// The payloads that a reader hands out, call by call, when it holds `held`
/// and the stream arrives in `chunks`.
pub open spec fn received(held: Seq<u8>, chunks: Seq<Seq<u8>>) -> Seq<Seq<u8>>
    decreases chunks.len(),
{
    if chunks.len() == 0 {
        Seq::empty()
    } else {
        frames(held + chunks.first()) + received(
            residue(held + chunks.first()),
            chunks.drop_first(),
        )
    }
}

/// What a reader holds after the stream arrived in `chunks`.
pub open spec fn held_after(held: Seq<u8>, chunks: Seq<Seq<u8>>) -> Seq<u8>
    decreases chunks.len(),
{
    if chunks.len() == 0 {
        held
    } else {
        held_after(residue(held + chunks.first()), chunks.drop_first())
    }
}

/// The views of a vector of byte vectors.
pub open spec fn views(payloads: Seq<Vec<u8>>) -> Seq<Seq<u8>> {
    Seq::new(payloads.len(), |i: int| payloads[i]@)
}

/// A header announces the length it was made for.
pub proof fn lemma_header(len: nat, rest: Seq<u8>)
    requires
        len <= MAX_PAYLOAD,
    ensures
        header(len).len() == HEADER_LEN,
        announced(header(len) + rest) == len,
{
}

/// A stream that begins with a frame begins whole, with that frame's payload.
pub proof fn lemma_frame_first(payload: Seq<u8>, rest: Seq<u8>)
    requires
        payload.len() <= MAX_PAYLOAD,
    ensures
        starts_whole(frame(payload) + rest),
        first_payload(frame(payload) + rest) == payload,
        past_first(frame(payload) + rest) == rest,
{
    lemma_header(payload.len(), payload + rest);
}

/// Framing then reading gives the payloads back, in order, and leaves what
/// came after them: `frames` undoes `wire`.
pub proof fn lemma_wire_then(payloads: Seq<Seq<u8>>, rest: Seq<u8>)
    requires
        all_fit(payloads),
    ensures
        frames(wire(payloads) + rest) == payloads + frames(rest),
        residue(wire(payloads) + rest) == residue(rest),
    decreases payloads.len(),
{
    if payloads.len() > 0 {
        let first = payloads.first();
        let others = payloads.drop_first();
        let tail = wire(others) + rest;
        assert(wire(payloads) + rest =~= frame(first) + tail);
        lemma_frame_first(first, tail);
        lemma_wire_then(others, rest);
    }
}

/// Reading does not depend on where the stream was cut: what is read from two
/// pieces one after the other is what is read from both at once.
pub proof fn lemma_cut(head: Seq<u8>, tail: Seq<u8>)
    ensures
        frames(head + tail) == frames(head) + frames(residue(head) + tail),
        residue(head + tail) == residue(residue(head) + tail),
    decreases head.len(),
{
    if starts_whole(head) {
        let all = head + tail;
        assert(first_payload(all) =~= first_payload(head));
        assert(past_first(all) =~= past_first(head) + tail);
        lemma_cut(past_first(head), tail);
    }
}

/// A broken stream stays broken: whatever arrives behind a header that no
/// frame can have, nothing more is read, and no attempt is made to find the
/// next frame.
pub proof fn law_broken_stays_broken(held: Seq<u8>, more: Seq<u8>)
    requires
        starts_bad(held),
    ensures
        starts_bad(held + more),
        frames(held + more) == Seq::<Seq<u8>>::empty(),
        residue(held + more) == held + more,
{
}

/// What is left behind the whole frames does not begin with a whole frame.
pub proof fn lemma_residue_partial(bytes: Seq<u8>)
    ensures
        !starts_whole(residue(bytes)),
    decreases bytes.len(),
{
    if starts_whole(bytes) {
        lemma_residue_partial(past_first(bytes));
    }
}

/// A reader that is fed a stream piece by piece hands out what it would hand
/// out of the whole stream at once, and is left holding the same.
pub proof fn lemma_received(held: Seq<u8>, chunks: Seq<Seq<u8>>)
    requires
        !starts_whole(held),
    ensures
        received(held, chunks) == frames(held + chunks.flatten()),
        held_after(held, chunks) == residue(held + chunks.flatten()),
        !starts_whole(held_after(held, chunks)),
    decreases chunks.len(),
{
    if chunks.len() > 0 {
        let first = chunks.first();
        let others = chunks.drop_first();
        assert(held + chunks.flatten() =~= (held + first) + others.flatten());
        lemma_cut(held + first, others.flatten());
        lemma_residue_partial(held + first);
        lemma_received(residue(held + first), others);
    }
}

/// Messages cross the stream unchanged and in order, however the stream is cut
/// into reads. If the pieces `chunks`, one after the other, are the stream that
/// carries `payloads`, a reader that starts empty and is fed the pieces hands
/// out exactly `payloads` and is left empty: this holds when one piece spans
/// several frames and when a frame is split over several pieces.
pub proof fn law_round_trip(payloads: Seq<Seq<u8>>, chunks: Seq<Seq<u8>>)
    requires
        all_fit(payloads),
        chunks.flatten() == wire(payloads),
    ensures
        received(Seq::empty(), chunks) == payloads,
        held_after(Seq::empty(), chunks) == Seq::<u8>::empty(),
{
    let none = Seq::<u8>::empty();
    lemma_received(none, chunks);
    lemma_wire_then(payloads, none);
}

/// With nothing to send and nothing read, a pump does nothing: no payloads
/// make an empty stream, and a reader that is fed no bytes hands out no payload
/// and keeps what it held.
pub proof fn law_idle(held: Seq<u8>)
    requires
        !starts_whole(held),
    ensures
        wire(Seq::empty()) == Seq::<u8>::empty(),
        frames(held + Seq::<u8>::empty()) == Seq::<Seq<u8>>::empty(),
        residue(held + Seq::<u8>::empty()) == held,
{
}

/// Sending in several batches makes the stream of one: the streams of two
/// batches, one after the other, are the stream of all their payloads.
pub proof fn law_wire_joins(first: Seq<Seq<u8>>, second: Seq<Seq<u8>>)
    ensures
        wire(first + second) == wire(first) + wire(second),
    decreases first.len(),
{
    if first.len() > 0 {
        assert((first + second).drop_first() =~= first.drop_first() + second);
        law_wire_joins(first.drop_first(), second);
        assert(wire(first + second) =~= frame(first.first()) + (wire(first.drop_first()) + wire(
            second,
        )));
    }
}

/// The stream grows by one frame for each payload that is added.
pub proof fn lemma_wire_push(payloads: Seq<Seq<u8>>, last: Seq<u8>)
    ensures
        wire(payloads.push(last)) == wire(payloads) + frame(last),
{
    let one = seq![last];
    assert(payloads.push(last) =~= payloads + one);
    law_wire_joins(payloads, one);
    assert(wire(one.drop_first()) =~= Seq::<u8>::empty());
}

/// Frames one payload: its length in `HEADER_LEN` bytes, then the payload.
/// Fails exactly when the payload is longer than a frame may carry.
pub fn encode_frame(payload: &[u8]) -> (framed: Result<Vec<u8>, FrameError>)
    ensures
        match framed {
            Ok(bytes) => payload@.len() <= MAX_PAYLOAD && bytes@ == frame(payload@),
            Err(error) => payload@.len() > MAX_PAYLOAD && error == FrameError::TooLong,
        },
{
    let len: usize = payload.len();
    if len > MAX_PAYLOAD {
        return Err(FrameError::TooLong);
    }
    let mut bytes: Vec<u8> = Vec::new();
    bytes.push((len / 0x100_0000) as u8);
    bytes.push(((len / 0x1_0000) % 0x100) as u8);
    bytes.push(((len / 0x100) % 0x100) as u8);
    bytes.push((len % 0x100) as u8);
    bytes.extend_from_slice(payload);
    Ok(bytes)
}

/// Frames every payload and joins the frames in order. Fails exactly when one
/// of the payloads is longer than a frame may carry.
pub fn encode_all(payloads: &Vec<Vec<u8>>) -> (framed: Result<Vec<u8>, FrameError>)
    ensures
        match framed {
            Ok(bytes) => all_fit(views(payloads@)) && bytes@ == wire(views(payloads@)),
            Err(error) => !all_fit(views(payloads@)) && error == FrameError::TooLong,
        },
{
    let mut bytes: Vec<u8> = Vec::new();
    let mut done: usize = 0;
    while done < payloads.len()
        invariant
            done <= payloads@.len(),
            all_fit(views(payloads@).take(done as int)),
            bytes@ == wire(views(payloads@).take(done as int)),
        decreases payloads@.len() - done,
    {
        let ghost all = views(payloads@);
        match encode_frame(payloads[done].as_slice()) {
            Ok(one) => {
                bytes.extend_from_slice(one.as_slice());
                proof {
                    assert(all.take(done + 1) =~= all.take(done as int).push(all[done as int]));
                    lemma_wire_push(all.take(done as int), all[done as int]);
                }
            },
            Err(error) => {
                assert(all[done as int].len() > MAX_PAYLOAD);
                return Err(error);
            },
        }
        done = done + 1;
    }
    assert(views(payloads@).take(done as int) =~= views(payloads@));
    Ok(bytes)
}

/// Reads the header that stands at `start`.
fn announced_by(bytes: &Vec<u8>, start: usize) -> (len: usize)
    requires
        start + HEADER_LEN <= bytes@.len(),
    ensures
        len == announced(bytes@.skip(start as int)),
{
    assert(start + HEADER_LEN <= bytes.len());
    let b0: u8 = bytes[start];
    let b1: u8 = bytes[start + 1];
    let b2: u8 = bytes[start + 2];
    let b3: u8 = bytes[start + 3];
    (b0 as usize) * 0x100_0000 + (b1 as usize) * 0x1_0000 + (b2 as usize) * 0x100 + (b3 as usize)
}

/// The receiving side of a stream: gathers bytes as they arrive and hands out
/// each payload once its frame is whole.
pub struct FrameReader {
    held: Vec<u8>,
}

impl View for FrameReader {
    type V = Seq<u8>;

    /// The bytes that arrived and belong to a frame that is not whole yet.
    closed spec fn view(&self) -> Seq<u8> {
        self.held@
    }
}

impl FrameReader {
    /// Between calls a reader holds no whole frame: every frame is handed out
    /// by the call in which its last byte arrives.
    pub open spec fn wf(&self) -> bool {
        !starts_whole(self@)
    }

    /// A reader that has seen no bytes.
    pub fn new() -> (reader: Self)
        ensures
            reader@ == Seq::<u8>::empty(),
            reader.wf(),
    {
        FrameReader { held: Vec::new() }
    }

    /// The number of bytes held back for a frame that is not whole yet.
    pub fn pending(&self) -> (len: usize)
        ensures
            len == self@.len(),
    {
        self.held.len()
    }

    /// Tells whether the stream is still sound. It is not once a header has
    /// arrived that announces more than a frame may carry; from then on nothing
    /// more is handed out.
    pub fn check(&self) -> (sound: Result<(), FrameError>)
        ensures
            sound is Ok <==> !starts_bad(self@),
            sound is Err ==> sound == Err::<(), _>(FrameError::Malformed),
    {
        if self.held.len() < HEADER_LEN {
            return Ok(());
        }
        if announced_by(&self.held, 0) > MAX_PAYLOAD {
            Err(FrameError::Malformed)
        } else {
            Ok(())
        }
    }

    /// Takes the bytes of one read, which may be none, a part of a frame or
    /// several frames, and hands out the payload of every frame that is now
    /// whole, in order of arrival. What is left is held for the next call.
    pub fn receive(&mut self, chunk: &[u8]) -> (payloads: Vec<Vec<u8>>)
        ensures
            views(payloads@) == frames(old(self)@ + chunk@),
            final(self)@ == residue(old(self)@ + chunk@),
            final(self).wf(),
            old(self).wf() && chunk@.len() == 0 ==> payloads@.len() == 0 && final(self)@ == old(
                self,
            )@,
    {
        self.held.extend_from_slice(chunk);
        let ghost all = self.held@;
        assert(all =~= old(self)@ + chunk@);
        let mut payloads: Vec<Vec<u8>> = Vec::new();
        let mut start: usize = 0;
        assert(all.skip(0) =~= all);
        loop
            invariant
                self.held@ == all,
                start <= all.len(),
                frames(all) == views(payloads@) + frames(all.skip(start as int)),
                residue(all) == residue(all.skip(start as int)),
            ensures
                !starts_whole(all.skip(start as int)),
            decreases all.len() - start,
        {
            let ghost rest = all.skip(start as int);
            let left: usize = self.held.len() - start;
            if left < HEADER_LEN {
                break;
            }
            let len: usize = announced_by(&self.held, start);
            if len > MAX_PAYLOAD || left - HEADER_LEN < len {
                break;
            }
            let from: usize = start + HEADER_LEN;
            let payload = slice_to_vec(slice_subrange(self.held.as_slice(), from, from + len));
            proof {
                assert(payload@ =~= first_payload(rest));
                assert(all.skip(from + len) =~= past_first(rest));
                assert(views(payloads@).push(payload@) + frames(past_first(rest)) =~= views(
                    payloads@,
                ) + (seq![first_payload(rest)] + frames(past_first(rest))));
            }
            payloads.push(payload);
            start = from + len;
        }
        let kept = self.held.split_off(start);
        self.held = kept;
        payloads
    }
}

} // verus!
