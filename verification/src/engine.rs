//! The decisions of the capture thread, as a state machine.
//!
//! The thread performs the action it is given and reports the outcome as the
//! next event: `step` answers with the next action. Activation, waiting,
//! reading and forwarding are the thread's own business; which of them comes
//! next, and when the session is over, is decided here.

use crate::capture::{
    activation_result, Activation, CaptureError, ACTIVATION_TIMEOUT_MS, BUFFER_FLAG_SILENT,
    WAIT_TIMEOUT_MS,
};
use vstd::prelude::*;

verus! {

/// Why a capture session ended.
#[derive(Clone, Copy, Debug, PartialEq, Eq)]
pub enum Exit {
    /// The stop flag was lowered.
    StopRequested,
    /// Nobody receives the chunks any more: the normal end of a session.
    ChannelClosed,
    /// The session failed.
    Failed(CaptureError),
    /// The thread reported an event that cannot follow the last action.
    OutOfTurn,
}

/// Where the capture thread stands.
#[derive(Clone, Copy, Debug, PartialEq, Eq)]
pub enum CaptureState {
    /// The activation has been requested.
    Activating,
    /// Waiting for the next packet to be signalled.
    Waiting,
    /// Draining a burst: a read has been requested.
    Reading,
    /// A chunk from a packet of `frames` frames is being handed off.
    Forwarding { frames: u32 },
    /// A packet of `frames` frames is being given back; `last` says that the
    /// burst ends with it because the receiver is gone.
    Releasing { frames: u32, last: bool },
    /// The session is over.
    Finished(Exit),
}

/// What the capture thread reports.
#[derive(Clone, Copy, Debug, PartialEq, Eq)]
pub enum CaptureEvent {
    /// The stream is set up and started.
    Started,
    /// The system turned the activation down.
    ActivationFailed,
    /// The activation did not complete within the timeout.
    ActivationTimedOut,
    /// The stream could not be set up after the activation.
    SetupFailed,
    /// The wait ended without a signal.
    WaitTimedOut,
    /// A packet was signalled.
    Signaled,
    /// The read failed: the burst is over.
    NoPacket,
    /// A packet was read. `has_data` says that its buffer is there.
    Packet { frames: u32, flags: u32, has_data: bool },
    /// The chunk was handed off.
    Forwarded,
    /// The chunk was not taken: the receiver is gone.
    ReceiverGone,
    /// The packet was given back.
    Released,
    /// The packet could not be given back.
    ReleaseFailed,
}

/// What the capture thread does next.
#[derive(Clone, Copy, Debug, PartialEq, Eq)]
pub enum CaptureAction {
    /// Wait for the activation to complete.
    AwaitActivation { timeout_ms: u32 },
    /// Wait for a packet to be signalled.
    Wait { timeout_ms: u32 },
    /// Read the next packet of the burst.
    ReadPacket,
    /// Normalize the first `bytes` bytes of the packet and hand the chunk
    /// off, blocking while the hand-off channel is full.
    Forward { bytes: u64 },
    /// Give the packet back.
    Release { frames: u32 },
    /// Stop the stream, release everything and end the thread.
    Finish(Exit),
}

/// What the thread sees of the outside when it reports an event.
#[derive(Clone, Copy, Debug, PartialEq, Eq)]
pub struct Observed {
    /// The stop flag still stands.
    pub running: bool,
    /// The hand-off channel has lost its receiver.
    pub receiver_gone: bool,
}

/// Whether a packet is marked as silence.
pub open spec fn is_silent(flags: u32) -> bool {
    flags & BUFFER_FLAG_SILENT != 0
}

/// The bytes that a packet holds.
pub open spec fn packet_bytes(frames: u32, block_align: u32) -> int {
    frames * block_align
}

/// Whether a packet is forwarded: it is not marked as silence, its buffer is
/// there and it holds at least one byte.
pub open spec fn is_forwarded(frames: u32, flags: u32, has_data: bool, block_align: u32) -> bool {
    !is_silent(flags) && has_data && packet_bytes(frames, block_align) > 0
}

/// The state and the action at the point where the thread is about to wait:
/// a lost receiver or a lowered stop flag ends the session.
pub open spec fn before_wait(seen: Observed) -> (CaptureState, CaptureAction) {
    if seen.receiver_gone {
        (CaptureState::Finished(Exit::ChannelClosed), CaptureAction::Finish(Exit::ChannelClosed))
    } else if !seen.running {
        (CaptureState::Finished(Exit::StopRequested), CaptureAction::Finish(Exit::StopRequested))
    } else {
        (CaptureState::Waiting, CaptureAction::Wait { timeout_ms: WAIT_TIMEOUT_MS })
    }
}

/// The end of the session for a reason.
pub open spec fn finish(exit: Exit) -> (CaptureState, CaptureAction) {
    (CaptureState::Finished(exit), CaptureAction::Finish(exit))
}

/// The transition function of the capture thread.
pub open spec fn next(
    state: CaptureState,
    event: CaptureEvent,
    seen: Observed,
    block_align: u32,
) -> (CaptureState, CaptureAction) {
    match (state, event) {
        (CaptureState::Finished(exit), _) => finish(exit),
        (CaptureState::Activating, CaptureEvent::Started) => if seen.running {
            (CaptureState::Waiting, CaptureAction::Wait { timeout_ms: WAIT_TIMEOUT_MS })
        } else {
            finish(Exit::StopRequested)
        },
        (CaptureState::Activating, CaptureEvent::ActivationFailed) => finish(
            Exit::Failed(CaptureError::ActivationFailed),
        ),
        (CaptureState::Activating, CaptureEvent::ActivationTimedOut) => finish(
            Exit::Failed(CaptureError::Timeout),
        ),
        (CaptureState::Activating, CaptureEvent::SetupFailed) => finish(
            Exit::Failed(CaptureError::SetupFailed),
        ),
        (CaptureState::Waiting, CaptureEvent::WaitTimedOut) => if seen.running {
            (CaptureState::Waiting, CaptureAction::Wait { timeout_ms: WAIT_TIMEOUT_MS })
        } else {
            finish(Exit::StopRequested)
        },
        (CaptureState::Waiting, CaptureEvent::Signaled) => (
            CaptureState::Reading,
            CaptureAction::ReadPacket,
        ),
        (CaptureState::Reading, CaptureEvent::NoPacket) => before_wait(seen),
        (CaptureState::Reading, CaptureEvent::Packet { frames, flags, has_data }) => if frames
            == 0 {
            before_wait(seen)
        } else if is_forwarded(frames, flags, has_data, block_align) {
            (
                CaptureState::Forwarding { frames },
                CaptureAction::Forward { bytes: packet_bytes(frames, block_align) as u64 },
            )
        } else {
            (CaptureState::Releasing { frames, last: false }, CaptureAction::Release { frames })
        },
        (CaptureState::Forwarding { frames }, CaptureEvent::Forwarded) => (
            CaptureState::Releasing { frames, last: false },
            CaptureAction::Release { frames },
        ),
        (CaptureState::Forwarding { frames }, CaptureEvent::ReceiverGone) => (
            CaptureState::Releasing { frames, last: true },
            CaptureAction::Release { frames },
        ),
        (CaptureState::Releasing { frames, last }, CaptureEvent::Released) => if last {
            finish(Exit::ChannelClosed)
        } else {
            (CaptureState::Reading, CaptureAction::ReadPacket)
        },
        (CaptureState::Releasing { frames, last }, CaptureEvent::ReleaseFailed) => finish(
            Exit::Failed(CaptureError::ReadFailed),
        ),
        _ => finish(Exit::OutOfTurn),
    }
}

/// What an event says of the activation, if it is one of those that end it.
pub open spec fn activation_in(event: CaptureEvent) -> Option<Activation> {
    match event {
        CaptureEvent::Started => Some(Activation::Started),
        CaptureEvent::ActivationFailed => Some(Activation::Failed),
        CaptureEvent::ActivationTimedOut => Some(Activation::TimedOut),
        CaptureEvent::SetupFailed => Some(Activation::SetupFailed),
        _ => None,
    }
}

/// What the thread reports to the one who waits for the start: how the
/// activation ended, if this event ends it.
pub fn activation_of(event: CaptureEvent) -> (activation: Option<Activation>)
    ensures
        activation == activation_in(event),
{
    match event {
        CaptureEvent::Started => Some(Activation::Started),
        CaptureEvent::ActivationFailed => Some(Activation::Failed),
        CaptureEvent::ActivationTimedOut => Some(Activation::TimedOut),
        CaptureEvent::SetupFailed => Some(Activation::SetupFailed),
        _ => None,
    }
}

/// The thread and the one who waits for the start agree: an activation that
/// gives the start an error ends the thread with that error, and one that
/// started lets the thread go on.
pub proof fn lemma_activation_agrees(event: CaptureEvent, seen: Observed, block_align: u32)
    requires
        activation_in(event) is Some,
    ensures
        match activation_result(activation_in(event)->Some_0) {
            Ok(_) => next(CaptureState::Activating, event, seen, block_align).0 == if seen.running {
                CaptureState::Waiting
            } else {
                CaptureState::Finished(Exit::StopRequested)
            },
            Err(error) => next(CaptureState::Activating, event, seen, block_align) == finish(
                Exit::Failed(error),
            ),
        },
{
}

/// The first action of a session: wait for the activation.
pub fn begin() -> (first: (CaptureState, CaptureAction))
    ensures
        first == (
            CaptureState::Activating,
            CaptureAction::AwaitActivation { timeout_ms: ACTIVATION_TIMEOUT_MS },
        ),
{
    (CaptureState::Activating, CaptureAction::AwaitActivation { timeout_ms: ACTIVATION_TIMEOUT_MS })
}

/// Whether a packet is forwarded, and the bytes it holds.
pub fn packet_decision(frames: u32, flags: u32, has_data: bool, block_align: u32) -> (decision: (
    bool,
    u64,
))
    ensures
        decision.0 == is_forwarded(frames, flags, has_data, block_align),
        decision.1 == packet_bytes(frames, block_align),
{
    assert(frames * block_align <= 0xFFFF_FFFF * 0xFFFF_FFFF) by (nonlinear_arith)
        requires
            frames <= 0xFFFF_FFFF,
            block_align <= 0xFFFF_FFFF,
    ;
    let bytes: u64 = (frames as u64) * (block_align as u64);
    let silent = (flags & BUFFER_FLAG_SILENT) != 0;
    (!silent && has_data && bytes > 0, bytes)
}

/// The end of the session for a reason.
fn finished(exit: Exit) -> (end: (CaptureState, CaptureAction))
    ensures
        end == finish(exit),
{
    (CaptureState::Finished(exit), CaptureAction::Finish(exit))
}

/// What comes when a burst is over: the end of the session, or the next wait.
fn wait_or_finish(seen: Observed) -> (then: (CaptureState, CaptureAction))
    ensures
        then == before_wait(seen),
{
    if seen.receiver_gone {
        finished(Exit::ChannelClosed)
    } else if !seen.running {
        finished(Exit::StopRequested)
    } else {
        (CaptureState::Waiting, CaptureAction::Wait { timeout_ms: WAIT_TIMEOUT_MS })
    }
}

/// Takes the thread's report and answers with the new state and the next
/// action.
pub fn step(state: CaptureState, event: CaptureEvent, seen: Observed, block_align: u32) -> (then: (
    CaptureState,
    CaptureAction,
))
    ensures
        then == next(state, event, seen, block_align),
{
    match state {
        CaptureState::Finished(exit) => finished(exit),
        CaptureState::Activating => match event {
            CaptureEvent::Started => if seen.running {
                (CaptureState::Waiting, CaptureAction::Wait { timeout_ms: WAIT_TIMEOUT_MS })
            } else {
                finished(Exit::StopRequested)
            },
            CaptureEvent::ActivationFailed => finished(
                Exit::Failed(CaptureError::ActivationFailed),
            ),
            CaptureEvent::ActivationTimedOut => finished(Exit::Failed(CaptureError::Timeout)),
            CaptureEvent::SetupFailed => finished(Exit::Failed(CaptureError::SetupFailed)),
            _ => finished(Exit::OutOfTurn),
        },
        CaptureState::Waiting => match event {
            CaptureEvent::WaitTimedOut => if seen.running {
                (CaptureState::Waiting, CaptureAction::Wait { timeout_ms: WAIT_TIMEOUT_MS })
            } else {
                finished(Exit::StopRequested)
            },
            CaptureEvent::Signaled => (CaptureState::Reading, CaptureAction::ReadPacket),
            _ => finished(Exit::OutOfTurn),
        },
        CaptureState::Reading => match event {
            CaptureEvent::NoPacket => wait_or_finish(seen),
            CaptureEvent::Packet { frames, flags, has_data } => {
                if frames == 0 {
                    wait_or_finish(seen)
                } else {
                    let (forward, bytes) = packet_decision(frames, flags, has_data, block_align);
                    if forward {
                        (CaptureState::Forwarding { frames }, CaptureAction::Forward { bytes })
                    } else {
                        (
                            CaptureState::Releasing { frames, last: false },
                            CaptureAction::Release { frames },
                        )
                    }
                }
            },
            _ => finished(Exit::OutOfTurn),
        },
        CaptureState::Forwarding { frames } => match event {
            CaptureEvent::Forwarded => (
                CaptureState::Releasing { frames, last: false },
                CaptureAction::Release { frames },
            ),
            CaptureEvent::ReceiverGone => (
                CaptureState::Releasing { frames, last: true },
                CaptureAction::Release { frames },
            ),
            _ => finished(Exit::OutOfTurn),
        },
        CaptureState::Releasing { frames, last } => match event {
            CaptureEvent::Released => if last {
                finished(Exit::ChannelClosed)
            } else {
                (CaptureState::Reading, CaptureAction::ReadPacket)
            },
            CaptureEvent::ReleaseFailed => finished(Exit::Failed(CaptureError::ReadFailed)),
            _ => finished(Exit::OutOfTurn),
        },
    }
}

/// Once a session is over it stays over: whatever is reported, the answer is
/// to finish, for the same reason, and nothing is forwarded.
pub proof fn lemma_finished_is_final(
    exit: Exit,
    event: CaptureEvent,
    seen: Observed,
    block_align: u32,
)
    ensures
        next(CaptureState::Finished(exit), event, seen, block_align) == finish(exit),
{
}

/// A lowered stop flag ends the session at the next wait that times out, so
/// within one wait of 100 ms when no packets arrive.
pub proof fn lemma_stop_is_seen_at_timeout(seen: Observed, block_align: u32)
    requires
        !seen.running,
    ensures
        next(CaptureState::Waiting, CaptureEvent::WaitTimedOut, seen, block_align) == finish(
            Exit::StopRequested,
        ),
{
}

/// Only a packet that has frames, is not marked as silence and has its
/// buffer is forwarded, and then with all its bytes.
pub proof fn lemma_forward_only_sound(
    state: CaptureState,
    event: CaptureEvent,
    seen: Observed,
    block_align: u32,
)
    requires
        next(state, event, seen, block_align).1 is Forward,
    ensures
        state == CaptureState::Reading,
        event is Packet,
        event->frames > 0,
        !is_silent(event->flags),
        event->has_data,
        next(state, event, seen, block_align).1->bytes == event->frames * block_align,
{
    let bytes = packet_bytes(event->frames, block_align);
    assert(0 <= bytes <= 0xFFFF_FFFF * 0xFFFF_FFFF) by (nonlinear_arith)
        requires
            bytes == event->frames * block_align,
            0 <= event->frames <= 0xFFFF_FFFF,
            0 <= block_align <= 0xFFFF_FFFF,
    ;
}

/// Every packet with frames is given back, whether it was forwarded, dropped
/// as silence, or refused by a receiver that is gone: the thread is told to
/// release exactly the frames it read.
pub proof fn lemma_every_packet_is_released(
    frames: u32,
    flags: u32,
    has_data: bool,
    outcome: CaptureEvent,
    seen: Observed,
    block_align: u32,
)
    requires
        frames > 0,
        outcome == CaptureEvent::Forwarded || outcome == CaptureEvent::ReceiverGone,
    ensures
        ({
            let read = next(
                CaptureState::Reading,
                CaptureEvent::Packet { frames, flags, has_data },
                seen,
                block_align,
            );
            if is_forwarded(frames, flags, has_data, block_align) {
                read.1 is Forward && next(read.0, outcome, seen, block_align).1
                    == (CaptureAction::Release { frames })
            } else {
                read.1 == (CaptureAction::Release { frames })
            }
        }),
{
}

/// A receiver that is gone ends the session once the packet at hand has been
/// given back.
pub proof fn lemma_lost_receiver_ends_session(frames: u32, seen: Observed, block_align: u32)
    ensures
        ({
            let refused = next(
                CaptureState::Forwarding { frames },
                CaptureEvent::ReceiverGone,
                seen,
                block_align,
            );
            next(refused.0, CaptureEvent::Released, seen, block_align) == finish(
                Exit::ChannelClosed,
            )
        }),
{
}

} // verus!
