//! The session bot: it owns the capture session and the broadcast endpoint
//! for as long as one listening session lasts.

use crate::fanout::{
    backlog_of, endpoint_of, lemma_backlog, open_endpoint, send_frame, share_endpoint,
    subscribe_to, subscription_of, BACKLOG_FRAMES,
};
use crate::capture::{
    activation_result, is_start_result, message_of, start_capture, stop_capture, support_of,
    Activation, BuildProbe, CaptureError, CaptureHandle,
};
use crate::enumerate::{find_spotify_pid, target_of, WindowInfo};
use crate::framer::{
    canonical, frame_views, framed, leftover, lemma_frames_of_is_framed,
    lemma_framing_is_incremental, whole_frames, AudioFrame, Framer,
};
use crate::normalize::AudioChunk;
use std::sync::atomic::AtomicBool;
use std::sync::Arc;
use tokio::sync::broadcast::{Receiver, Sender};
use vstd::prelude::*;
use vstd::string::StringExecFns;

verus! {

/// Why the bot did not start.
#[derive(Clone, Copy, Debug, PartialEq, Eq)]
pub enum JamBotError {
    /// The music player is not running: worth another try later.
    DeviceNotFound,
    /// The capture session could not be opened.
    CaptureFailed(CaptureError),
}

/// The reason of an error in words.
pub open spec fn reason_of(error: JamBotError) -> Seq<char> {
    match error {
        JamBotError::DeviceNotFound => "Spotify.exe not found \u{2014} is Spotify running?"@,
        JamBotError::CaptureFailed(e) => message_of(e),
    }
}

impl JamBotError {
    /// The reason in words, for whoever asked for the session.
    pub fn message(&self) -> (text: String)
        ensures
            text@ == reason_of(*self),
    {
        match self {
            JamBotError::DeviceNotFound => String::from_str(
                "Spotify.exe not found \u{2014} is Spotify running?",
            ),
            JamBotError::CaptureFailed(e) => e.message(),
        }
    }
}

/// Whether `result` is what the start of a bot on `pid` comes to once the
/// activation has ended: a bot that captures the process and keeps a backlog
/// of 64 frames if the stream started, and the activation's error otherwise.
pub open spec fn is_bot_start(
    pid: u32,
    flag: Arc<AtomicBool>,
    activation: Activation,
    result: Result<JamBot, JamBotError>,
) -> bool {
    match activation_result(activation) {
        Ok(_) => result matches Ok(bot) && bot.target() == Some(pid) && !bot.is_stopped()
            && bot.flag() == Some(flag) && bot.backlog() == BACKLOG_FRAMES,
        Err(error) => result matches Err(e) && e == JamBotError::CaptureFailed(error),
    }
}

/// A running session bot.
pub struct JamBot {
    capture_handle: Option<CaptureHandle>,
    audio_tx: Sender<AudioFrame>,
}

/// The publishing side of the bot: it turns chunks into frames and sends
/// them to the endpoint.
pub struct FramePublisher {
    framer: Framer,
    audio_tx: Sender<AudioFrame>,
    frame_count: u64,
    taken: Ghost<Seq<u32>>,
    handed: Ghost<Seq<Seq<u32>>>,
}

impl JamBot {
    /// The process that the bot captures, while it has a capture session.
    pub closed spec fn target(&self) -> Option<u32> {
        match self.capture_handle {
            Some(handle) => Some(handle.target()),
            None => None,
        }
    }

    /// Whether the capture session has been told to stop.
    pub closed spec fn is_stopped(&self) -> bool {
        match self.capture_handle {
            Some(handle) => handle.is_stopped(),
            None => true,
        }
    }

    /// The endpoint that the bot's frames go to.
    pub closed spec fn endpoint(&self) -> int {
        endpoint_of(self.audio_tx)
    }

    /// How many frames the endpoint keeps for a subscriber that falls behind.
    pub closed spec fn backlog(&self) -> int {
        backlog_of(self.audio_tx)
    }

    /// The stop flag of the capture session.
    pub closed spec fn flag(&self) -> Option<Arc<AtomicBool>> {
        match self.capture_handle {
            Some(handle) => Some(handle.flag()),
            None => None,
        }
    }

    /// Starts the bot on the windows found and the build probed. Without a
    /// window of the music player there is no device. With one, the
    /// capability check decides whether anything is activated, and then the
    /// activation, which `activate` carries out, whether the bot starts.
    pub fn start<F: FnOnce(u32, Arc<AtomicBool>) -> Activation>(
        windows: Vec<WindowInfo>,
        probe: &BuildProbe,
        activate: F,
    ) -> (result: Result<JamBot, JamBotError>)
        requires
            forall|p: u32, flag: Arc<AtomicBool>| call_requires(activate, (p, flag)),
        ensures
            match (target_of(windows@), support_of(*probe)) {
                (None, _) => result matches Err(e) && e == JamBotError::DeviceNotFound,
                (Some(pid), Err(error)) => result matches Err(e) && e == JamBotError::CaptureFailed(
                    error,
                ),
                (Some(pid), Ok(_)) => exists|flag: Arc<AtomicBool>, activation: Activation|
                    call_ensures(activate, (pid, flag), activation) && is_bot_start(
                        pid,
                        flag,
                        activation,
                        result,
                    ),
            },
    {
        let pid = match find_spotify_pid(windows) {
            Some(pid) => pid,
            None => {
                return Err(JamBotError::DeviceNotFound);
            },
        };
        let audio_tx = open_endpoint(BACKLOG_FRAMES);
        proof {
            lemma_backlog();
        }
        let ghost activator = activate;
        let captured = start_capture(pid, probe, activate);
        let ghost started = captured;
        let result = match captured {
            Ok(handle) => Ok(JamBot { capture_handle: Some(handle), audio_tx }),
            Err(e) => Err(JamBotError::CaptureFailed(e)),
        };
        proof {
            if support_of(*probe) is Ok {
                let (flag, activation) = choose|flag: Arc<AtomicBool>, activation: Activation|
                    call_ensures(activator, (pid, flag), activation) && is_start_result(
                        pid,
                        flag,
                        activation,
                        started,
                    );
                assert(call_ensures(activator, (pid, flag), activation) && is_bot_start(
                    pid,
                    flag,
                    activation,
                    result,
                ));
            }
        }
        result
    }

    /// The process that the bot captures.
    pub fn pid(&self) -> (pid: Option<u32>)
        ensures
            pid == self.target(),
    {
        match &self.capture_handle {
            Some(handle) => Some(handle.pid()),
            None => None,
        }
    }

    /// The capture session, for its thread to watch the stop flag.
    pub fn capture_handle(&self) -> (handle: &Option<CaptureHandle>)
        ensures
            handle matches Some(h) ==> self.target() == Some(h.target()) && self.is_stopped()
                == h.is_stopped() && self.flag() == Some(h.flag()),
            handle is None ==> self.target() is None && self.flag() is None,
    {
        &self.capture_handle
    }

    /// A new receiver for a subscriber, on this bot's endpoint: it gets the
    /// frames that the bot's publisher hands over from now on.
    pub fn subscribe(&self) -> (rx: Receiver<AudioFrame>)
        ensures
            subscription_of(rx) == self.endpoint(),
    {
        subscribe_to(&self.audio_tx)
    }

    /// The publishing side, to be run by the task that takes the chunks off
    /// the hand-off channel. It starts with nothing pending.
    pub fn publisher(&self) -> (publisher: FramePublisher)
        ensures
            publisher.wf(),
            publisher.taken() == Seq::<u32>::empty(),
            publisher.endpoint() == self.endpoint(),
    {
        let publisher = FramePublisher {
            framer: Framer::new(),
            audio_tx: share_endpoint(&self.audio_tx),
            frame_count: 0,
            taken: Ghost(Seq::empty()),
            handed: Ghost(Seq::empty()),
        };
        assert(publisher.handed@ =~= framed(publisher.taken@));
        assert(publisher.framer.pending() =~= leftover(publisher.taken@));
        publisher
    }

    /// Tells the capture session to stop. It returns whether this call was
    /// the one that stopped it: the caller then joins the capture thread and
    /// cancels the publishing task, in that order.
    pub fn stop(&mut self) -> (first: bool)
        ensures
            final(self).is_stopped(),
            final(self).target() == old(self).target(),
            final(self).flag() == old(self).flag(),
            final(self).endpoint() == old(self).endpoint(),
            final(self).backlog() == old(self).backlog(),
            first == !old(self).is_stopped(),
    {
        let mut first = false;
        let mut taken: Option<CaptureHandle> = None;
        core::mem::swap(&mut taken, &mut self.capture_handle);
        if let Some(mut handle) = taken {
            first = stop_capture(&mut handle);
            self.capture_handle = Some(handle);
        }
        first
    }
}

/// The frame counter after `added` more frames: it stops at its limit.
pub open spec fn count_after(before: nat, added: nat) -> nat {
    if before + added <= u64::MAX {
        before + added
    } else {
        u64::MAX as nat
    }
}

/// What publishing a chunk came to.
#[derive(Clone, Copy, Debug, PartialEq, Eq)]
pub struct Published {
    /// Frames that the chunk completed and that were handed to the endpoint.
    pub frames: usize,
    /// Those of them that found at least one subscriber.
    pub delivered: usize,
}

impl FramePublisher {
    /// The endpoint that the frames are handed to.
    pub closed spec fn endpoint(&self) -> int {
        endpoint_of(self.audio_tx)
    }

    /// Every canonical sample taken so far, in capture order.
    pub closed spec fn taken(&self) -> Seq<u32> {
        self.taken@
    }

    /// The frames handed to the endpoint so far, in the order in which they
    /// were handed over.
    pub closed spec fn handed(&self) -> Seq<Seq<u32>> {
        self.handed@
    }

    /// The samples waiting for their frame to fill.
    pub closed spec fn pending(&self) -> Seq<u32> {
        self.framer.pending()
    }

    /// How many frames have been published, up to the limit of the counter.
    pub closed spec fn published(&self) -> nat {
        self.frame_count as nat
    }

    /// The publisher is in step with the stream: the frames handed over are
    /// the whole frames of what was taken, what is pending is the rest, and
    /// the counter has counted the frames.
    pub open spec fn wf(&self) -> bool {
        &&& self.handed() == framed(self.taken())
        &&& self.pending() == leftover(self.taken())
        &&& self.published() == count_after(0, self.handed().len())
    }

    /// How many frames have been published.
    pub fn frame_count(&self) -> (count: u64)
        ensures
            count == self.published(),
    {
        self.frame_count
    }

    /// Hands frames to the endpoint in their order and counts them. A frame
    /// that finds no subscriber is dropped, which is no error.
    fn publish(&mut self, frames: Vec<AudioFrame>) -> (delivered: usize)
        ensures
            final(self).pending() == old(self).pending(),
            final(self).taken() == old(self).taken(),
            final(self).endpoint() == old(self).endpoint(),
            final(self).published() == count_after(old(self).published(), frames@.len()),
            final(self).handed() == old(self).handed() + frame_views(frames@),
            delivered <= frames@.len(),
    {
        let mut delivered: usize = 0;
        let total = frames.len();
        let ghost start = self.frame_count as nat;
        let ghost before = self.handed@;
        assert(frame_views(frames@).subrange(0, 0) =~= Seq::<Seq<u32>>::empty());
        for frame in it: frames
            invariant
                it.seq() == frames@,
                frames@.len() == total,
                self.framer == old(self).framer,
                self.taken == old(self).taken,
                self.audio_tx == old(self).audio_tx,
                delivered <= it.index(),
                self.frame_count as nat == count_after(start, it.index() as nat),
                self.handed@ == before + frame_views(frames@).subrange(0, it.index() as int),
        {
            proof {
                let views = frame_views(frames@);
                let n = it.index() as int;
                assert(views.subrange(0, n + 1) =~= views.subrange(0, n).push(frame@));
            }
            self.handed = Ghost(self.handed@.push(frame@));
            if send_frame(&self.audio_tx, frame).is_some() {
                delivered += 1;
            }
            self.frame_count = self.frame_count.saturating_add(1);
        }
        assert(frame_views(frames@).subrange(0, total as int) =~= frame_views(frames@));
        delivered
    }

    /// Takes a chunk off the hand-off channel: converts it to the canonical
    /// format, and hands every frame that it completes to the endpoint, in
    /// order. What has been handed over is then the framing of everything
    /// taken so far.
    pub fn publish_chunk(&mut self, chunk: &AudioChunk) -> (done: Published)
        requires
            old(self).wf(),
        ensures
            final(self).wf(),
            final(self).endpoint() == old(self).endpoint(),
            final(self).taken() == old(self).taken() + canonical(*chunk),
            final(self).handed() == old(self).handed() + framed(
                old(self).pending() + canonical(*chunk),
            ),
            done.frames == whole_frames(old(self).pending() + canonical(*chunk)),
            done.delivered <= done.frames,
    {
        let ghost stream = self.taken@;
        let ghost piece = canonical(*chunk);
        let frames = self.framer.feed_chunk(chunk);
        let count = frames.len();
        proof {
            lemma_frames_of_is_framed(old(self).pending() + piece, frames@);
            lemma_framing_is_incremental(stream, piece);
        }
        self.taken = Ghost(stream + piece);
        let delivered = self.publish(frames);
        Published { frames: count, delivered }
    }
}

} // verus!
