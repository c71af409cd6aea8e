//! The broadcast endpoint: one sender, any number of subscribers, a bounded
//! backlog. A subscriber that falls behind by more than the backlog loses
//! the oldest frames and is told how many; it never holds the sender up.

use crate::framer::{le_bytes, AudioFrame, FRAME_DURATION_MS};
use tokio::sync::broadcast::error::TryRecvError;
use tokio::sync::broadcast::{Receiver, Sender};
use vstd::arithmetic::power2::{lemma2_to64, pow2};
use vstd::prelude::*;

verus! {

/// Frames the endpoint keeps for its subscribers: about 1.3 s of audio.
pub const BACKLOG_FRAMES: usize = 64;

/// The backlog is a power of two, so the channel keeps exactly that many
/// frames, and it spans 1280 ms of audio.
pub proof fn lemma_backlog()
    ensures
        BACKLOG_FRAMES == pow2(6),
        BACKLOG_FRAMES * FRAME_DURATION_MS == 1280,
{
    lemma2_to64();
}

#[verifier::external_type_specification]
#[verifier::external_body]
#[verifier::reject_recursive_types(T)]
pub struct ExSender<T>(Sender<T>);

#[verifier::external_type_specification]
#[verifier::external_body]
#[verifier::reject_recursive_types(T)]
pub struct ExReceiver<T>(Receiver<T>);

/// The endpoint that a sender sends to: the channel it is a handle of.
pub uninterp spec fn endpoint_of(tx: Sender<AudioFrame>) -> int;

/// The endpoint that a receiver reads: the channel it is a handle of.
pub uninterp spec fn subscription_of(rx: Receiver<AudioFrame>) -> int;

/// How many frames the channel of a sender keeps for its receivers.
pub uninterp spec fn backlog_of(tx: Sender<AudioFrame>) -> int;

/// What a subscriber finds when it looks for the next frame.
#[derive(Debug)]
pub enum Received {
    /// The next frame.
    Frame(AudioFrame),
    /// No frame is waiting.
    Empty,
    /// The sender is gone and every frame has been taken.
    Closed,
    /// That many frames were dropped on this subscriber's behalf; it goes on
    /// with the oldest frame still kept.
    Lagged(u64),
}

/// What the transport does for a subscriber.
#[derive(Debug, PartialEq, Eq)]
pub enum StreamAction {
    /// Send the bytes as one binary message.
    Send(Vec<u8>),
    /// Nothing to send: frames were skipped, the stream goes on.
    Skip { dropped: u64 },
    /// Nothing to send yet.
    Idle,
    /// Close the connection normally: the session is over.
    Close,
}

/// Calls `tokio::sync::broadcast::channel` and keeps the sender; the receiver
/// that comes with it is dropped, so the endpoint starts without
/// subscribers. The channel rounds the capacity up to a power of two and
/// keeps that many frames: a capacity that is a power of two is kept as it
/// is. The call panics on a capacity of zero or above `usize::MAX / 2`,
/// which the precondition leaves out.
#[verifier::external_body]
pub(crate) fn open_endpoint(capacity: usize) -> (tx: Sender<AudioFrame>)
    requires
        0 < capacity <= usize::MAX / 2,
    ensures
        backlog_of(tx) >= capacity,
        forall|k: nat| capacity == #[trigger] pow2(k) ==> backlog_of(tx) == capacity,
{
    let (tx, _) = tokio::sync::broadcast::channel::<AudioFrame>(capacity);
    tx
}

/// Calls `Sender::send`. The frame reaches whoever is subscribed at this
/// moment; with no subscriber it is dropped, and `None` says so. On success
/// the number of subscribers comes back, which is then at least one.
#[verifier::external_body]
pub(crate) fn send_frame(tx: &Sender<AudioFrame>, frame: AudioFrame) -> (receivers: Option<usize>)
    ensures
        receivers is Some ==> receivers->Some_0 >= 1,
{
    tx.send(frame).ok()
}

/// Calls `Sender::subscribe`: a receiver on the sender's channel, for the
/// frames sent from now on. (The call panics when a quarter of `usize::MAX`
/// receivers exist already, more than memory can hold.)
#[verifier::external_body]
pub(crate) fn subscribe_to(tx: &Sender<AudioFrame>) -> (rx: Receiver<AudioFrame>)
    ensures
        subscription_of(rx) == endpoint_of(*tx),
{
    tx.subscribe()
}

/// Calls `Sender::clone`: another handle to the same channel.
#[verifier::external_body]
pub(crate) fn share_endpoint(tx: &Sender<AudioFrame>) -> (other: Sender<AudioFrame>)
    ensures
        endpoint_of(other) == endpoint_of(*tx),
        backlog_of(other) == backlog_of(*tx),
{
    tx.clone()
}

/// Calls `Receiver::try_recv` and tells its outcomes apart. A lag is
/// reported only when at least one frame was dropped. The receiver stays on
/// its channel.
#[verifier::external_body]
pub(crate) fn try_receive(rx: &mut Receiver<AudioFrame>) -> (received: Received)
    ensures
        received matches Received::Lagged(n) ==> n >= 1,
        subscription_of(*final(rx)) == subscription_of(*old(rx)),
{
    match rx.try_recv() {
        Ok(frame) => Received::Frame(frame),
        Err(TryRecvError::Empty) => Received::Empty,
        Err(TryRecvError::Closed) => Received::Closed,
        Err(TryRecvError::Lagged(n)) => Received::Lagged(n),
    }
}

/// Whether `action` is what the transport does with what a subscriber
/// found: a frame goes out as its little-endian bytes, a lag is skipped
/// over, and the end of the session closes the connection.
pub open spec fn is_stream_step(received: Received, action: StreamAction) -> bool {
    match received {
        Received::Frame(frame) => action matches StreamAction::Send(bytes) && bytes@ == le_bytes(
            frame@,
        ),
        Received::Empty => action == StreamAction::Idle,
        Received::Closed => action == StreamAction::Close,
        Received::Lagged(n) => action == (StreamAction::Skip { dropped: n }),
    }
}

/// A subscriber that has lagged is neither sent anything for the frames it
/// missed nor cut off: the stream skips them and goes on.
pub proof fn lemma_lag_is_skipped(dropped: u64, action: StreamAction)
    requires
        is_stream_step(Received::Lagged(dropped), action),
    ensures
        action == (StreamAction::Skip { dropped }),
        !(action is Send),
        !(action is Close),
{
}

/// The connection is closed for one reason only: the session is over.
pub proof fn lemma_close_means_over(received: Received, action: StreamAction)
    requires
        is_stream_step(received, action),
    ensures
        action is Close <==> received is Closed,
        action is Send <==> received is Frame,
{
}

/// Decides what the transport does with what a subscriber found.
pub fn stream_step(received: Received) -> (action: StreamAction)
    ensures
        is_stream_step(received, action),
{
    match received {
        Received::Frame(frame) => StreamAction::Send(frame.to_le_bytes()),
        Received::Empty => StreamAction::Idle,
        Received::Closed => StreamAction::Close,
        Received::Lagged(n) => StreamAction::Skip { dropped: n },
    }
}

/// Looks for a subscriber's next frame without waiting and decides what the
/// transport does with what was found.
pub fn poll_stream(rx: &mut Receiver<AudioFrame>) -> (action: StreamAction)
    ensures
        exists|received: Received|
            #[trigger] is_stream_step(received, action) && (received matches Received::Lagged(n)
                ==> n >= 1),
        subscription_of(*final(rx)) == subscription_of(*old(rx)),
{
    let received = try_receive(rx);
    let ghost found = received;
    let action = stream_step(received);
    assert(is_stream_step(found, action));
    action
}

} // verus!
