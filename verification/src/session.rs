//! The session lifecycle coordinator.
//!
//! A session is inactive or active. It records its host, its listeners, the
//! queue of pending tracks and the last snapshot of what is playing. Every
//! transition returns what the caller has to do about the audio bot, whose
//! existence follows from the session state.

use crate::identity::{is_same_listener, same_listener};
use vstd::prelude::*;

verus! {

/// Seconds a session may stay without listeners before it is ended.
pub const AUTO_END_GRACE_SECS: u64 = 30;

/// Milliseconds after which the now-playing snapshot is fetched again.
pub const NOW_PLAYING_MAX_AGE_MS: u64 = 5000;

/// A track waiting in the session's queue.
#[derive(Clone, Debug)]
pub struct QueuedTrack {
    pub spotify_uri: String,
    pub name: String,
    pub artist: String,
    pub album_art_url: String,
    pub duration_ms: u64,
    pub added_by: String,
}

/// The last known snapshot of what is playing.
#[derive(Clone, Debug)]
pub struct NowPlayingInfo {
    pub name: String,
    pub artist: String,
    pub album_art_url: String,
    pub duration_ms: u64,
    pub progress_ms: u64,
    pub is_playing: bool,
    /// When the snapshot was taken, in milliseconds; `None` if unknown.
    pub fetched_at_ms: Option<u64>,
}

/// Why a request was turned down.
#[derive(Clone, Copy, Debug, PartialEq, Eq)]
pub enum SessionError {
    /// No music-service credential is connected.
    NotConnected,
    /// Only the host may stop the session.
    NotHost,
    /// The queue has no track at that position.
    NoSuchTrack,
}

/// What the caller has to do after a transition.
#[derive(Clone, Copy, Debug, PartialEq, Eq)]
pub enum Effect {
    /// Nothing.
    Nothing,
    /// Start an audio bot, replacing any that runs.
    SpawnBot,
    /// Stop the audio bot, if one runs.
    StopBot,
    /// Run the auto-end check once the grace period has passed, and hand it
    /// this epoch: the check counts only while the epoch is still the
    /// session's.
    ScheduleAutoEnd { epoch: u64 },
}

/// The session as a mathematical value.
pub struct SessionView {
    pub active: bool,
    /// How often the listener list has gone from empty to occupied, counted
    /// round the range of the counter.
    pub epoch: u64,
    pub host: Seq<char>,
    pub listeners: Seq<Seq<char>>,
    pub queue: Seq<QueuedTrack>,
    pub now_playing: Option<NowPlayingInfo>,
}

/// The identities of a list of listeners.
pub open spec fn identities(listeners: Seq<String>) -> Seq<Seq<char>> {
    listeners.map_values(|l: String| l@)
}

/// Whether some listener in the list is the same listener as `id`.
pub open spec fn is_listening(listeners: Seq<Seq<char>>, id: Seq<char>) -> bool {
    exists|i: int| 0 <= i < listeners.len() && same_listener(#[trigger] listeners[i], id)
}

/// No two entries name the same listener.
pub open spec fn distinct_listeners(listeners: Seq<Seq<char>>) -> bool {
    forall|i: int, j: int|
        0 <= i < j < listeners.len() ==> !same_listener(
            #[trigger] listeners[i],
            #[trigger] listeners[j],
        )
}

/// The list with `id` added, unless that listener is on it already.
pub open spec fn with_listener(listeners: Seq<Seq<char>>, id: Seq<char>) -> Seq<Seq<char>> {
    if is_listening(listeners, id) {
        listeners
    } else {
        listeners.push(id)
    }
}

/// The list without the listener `id`.
pub open spec fn without_listener(listeners: Seq<Seq<char>>, id: Seq<char>) -> Seq<Seq<char>> {
    listeners.filter(|l: Seq<char>| !same_listener(l, id))
}

/// The queue without the tracks in front of the one that is playing. If none
/// of the queued tracks is playing, nothing is left.
pub open spec fn queue_from(queue: Seq<QueuedTrack>, current_uri: Seq<char>) -> Seq<QueuedTrack>
    decreases queue.len(),
{
    if queue.len() == 0 || queue[0].spotify_uri@ == current_uri {
        queue
    } else {
        queue_from(queue.drop_first(), current_uri)
    }
}

/// The epoch after the listener list has gone from empty to occupied.
pub open spec fn raised(epoch: u64) -> u64 {
    if epoch == u64::MAX {
        0
    } else {
        (epoch + 1) as u64
    }
}

impl SessionView {
    /// A new session: inactive, with no host, listeners or tracks.
    pub open spec fn initial() -> SessionView {
        SessionView {
            active: false,
            epoch: 0,
            host: Seq::empty(),
            listeners: Seq::empty(),
            queue: Seq::empty(),
            now_playing: None,
        }
    }

    /// The epoch after a listener was put on the list: raised if the list
    /// was empty.
    pub open spec fn epoch_after_join(self) -> u64 {
        if self.listeners.len() == 0 {
            raised(self.epoch)
        } else {
            self.epoch
        }
    }

    /// The session after `id` started it.
    pub open spec fn started(self, id: Seq<char>) -> SessionView {
        SessionView {
            active: true,
            epoch: self.epoch_after_join(),
            host: id,
            listeners: with_listener(self.listeners, id),
            ..self
        }
    }

    /// Whether `id` may stop the session: only the host may, under any of
    /// its reconnect suffixes.
    pub open spec fn may_stop(self, id: Seq<char>) -> bool {
        same_listener(id, self.host)
    }

    /// The session after it ended: inactive, with nothing queued, nobody
    /// listening and nothing playing.
    pub open spec fn ended(self) -> SessionView {
        SessionView {
            active: false,
            epoch: self.epoch,
            host: self.host,
            listeners: Seq::empty(),
            queue: Seq::empty(),
            now_playing: None,
        }
    }

    /// The session after `id` joined.
    pub open spec fn joined(self, id: Seq<char>) -> SessionView {
        SessionView {
            epoch: self.epoch_after_join(),
            listeners: with_listener(self.listeners, id),
            ..self
        }
    }

    /// The session after `id` left.
    pub open spec fn left(self, id: Seq<char>) -> SessionView {
        SessionView { listeners: without_listener(self.listeners, id), ..self }
    }

    /// Whether the session is active and has just lost its last listener.
    pub open spec fn emptied_by(self, before: SessionView) -> bool {
        self.active && before.listeners.len() > 0 && self.listeners.len() == 0
    }

    /// Whether the session is active and has no listener.
    pub open spec fn is_abandoned(self) -> bool {
        self.active && self.listeners.len() == 0
    }

    /// Whether the auto-end check that was scheduled under `epoch` ends the
    /// session: nobody has joined since, and the session is still active
    /// without a listener.
    pub open spec fn is_due(self, epoch: u64) -> bool {
        epoch == self.epoch && self.is_abandoned()
    }

    /// What the caller is asked to do when a listener has gone.
    pub open spec fn departure_effect(self, before: SessionView) -> Effect {
        if self.emptied_by(before) {
            Effect::ScheduleAutoEnd { epoch: self.epoch }
        } else {
            Effect::Nothing
        }
    }

    /// The session after the auto-end check that was scheduled under `epoch`.
    pub open spec fn after_grace(self, epoch: u64) -> SessionView {
        if self.is_due(epoch) {
            self.ended()
        } else {
            self
        }
    }

    /// Whether the now-playing snapshot has to be fetched at time `now_ms`.
    pub open spec fn is_stale(self, connected: bool, now_ms: u64) -> bool {
        self.active && connected && match self.now_playing {
            None => true,
            Some(info) => match info.fetched_at_ms {
                None => true,
                Some(at) => now_ms >= at && now_ms - at > NOW_PLAYING_MAX_AGE_MS,
            },
        }
    }
}

/// Whether a bot that runs has to be stopped before another is started: it
/// has, always, so that at most one bot exists at a time.
pub fn plan_spawn(bot_running: bool) -> (stop_first: bool)
    ensures
        stop_first == bot_running,
{
    bot_running
}

/// The state of the listening session.
pub struct JamState {
    active: bool,
    epoch: u64,
    host_identity: String,
    listeners: Vec<String>,
    queue: Vec<QueuedTrack>,
    now_playing: Option<NowPlayingInfo>,
}

impl View for JamState {
    type V = SessionView;

    closed spec fn view(&self) -> SessionView {
        SessionView {
            active: self.active,
            epoch: self.epoch,
            host: self.host_identity@,
            listeners: identities(self.listeners@),
            queue: self.queue@,
            now_playing: self.now_playing,
        }
    }
}

impl JamState {
    /// The listener list names nobody twice.
    pub open spec fn wf(&self) -> bool {
        distinct_listeners(self@.listeners)
    }

    /// A new, inactive session.
    pub fn new() -> (state: JamState)
        ensures
            state@ == SessionView::initial(),
            state.wf(),
    {
        let state = JamState {
            active: false,
            epoch: 0,
            host_identity: String::new(),
            listeners: Vec::new(),
            queue: Vec::new(),
            now_playing: None,
        };
        assert(identities(state.listeners@) =~= Seq::empty());
        state
    }

    /// Whether the session is active.
    pub fn is_active(&self) -> (active: bool)
        ensures
            active == self@.active,
    {
        self.active
    }

    /// The epoch under which an auto-end check scheduled now would count.
    pub fn epoch(&self) -> (epoch: u64)
        ensures
            epoch == self@.epoch,
    {
        self.epoch
    }

    /// The identity of the host, as recorded at the start.
    pub fn host_identity(&self) -> (host: &String)
        ensures
            host@ == self@.host,
    {
        &self.host_identity
    }

    /// The listeners, in the order they joined.
    pub fn listeners(&self) -> (listeners: &Vec<String>)
        ensures
            identities(listeners@) == self@.listeners,
    {
        &self.listeners
    }

    /// How many listeners there are.
    pub fn listener_count(&self) -> (count: usize)
        ensures
            count == self@.listeners.len(),
    {
        self.listeners.len()
    }

    /// The pending tracks, next first.
    pub fn queue(&self) -> (queue: &Vec<QueuedTrack>)
        ensures
            queue@ == self@.queue,
    {
        &self.queue
    }

    /// The last snapshot of what is playing.
    pub fn now_playing(&self) -> (info: &Option<NowPlayingInfo>)
        ensures
            *info == self@.now_playing,
    {
        &self.now_playing
    }

    /// Whether `identity` is one of the listeners.
    pub fn has_listener(&self, identity: &str) -> (found: bool)
        ensures
            found == is_listening(self@.listeners, identity@),
    {
        let mut i: usize = 0;
        while i < self.listeners.len()
            invariant
                i <= self.listeners@.len(),
                forall|k: int|
                    0 <= k < i ==> !same_listener(
                        #[trigger] identities(self.listeners@)[k],
                        identity@,
                    ),
            decreases self.listeners@.len() - i,
        {
            if is_same_listener(self.listeners[i].as_str(), identity) {
                assert(same_listener(identities(self.listeners@)[i as int], identity@));
                return true;
            }
            i += 1;
        }
        false
    }

    /// Puts a listener on the list, unless that listener is on it already.
    fn add_listener(&mut self, identity: String)
        requires
            old(self).wf(),
        ensures
            final(self)@ == old(self)@.joined(identity@),
            final(self).wf(),
    {
        if self.listeners.len() == 0 {
            self.epoch = if self.epoch == u64::MAX {
                0
            } else {
                self.epoch + 1
            };
        }
        if !self.has_listener(identity.as_str()) {
            let ghost before = identities(self.listeners@);
            self.listeners.push(identity);
            assert(identities(self.listeners@) =~= before.push(identity@));
        }
    }

    /// Takes every entry that names the listener off the list.
    fn remove_listener(&mut self, identity: &str)
        requires
            old(self).wf(),
        ensures
            final(self)@ == old(self)@.left(identity@),
            final(self).wf(),
    {
        let ghost before = identities(self.listeners@);
        let ghost keep = |l: Seq<char>| !same_listener(l, identity@);
        let mut kept: Vec<String> = Vec::new();
        let mut i: usize = 0;
        assert(before.subrange(0, 0) =~= Seq::empty());
        while i < self.listeners.len()
            invariant
                i <= self.listeners@.len(),
                before == identities(self.listeners@),
                keep == (|l: Seq<char>| !same_listener(l, identity@)),
                identities(kept@) == before.subrange(0, i as int).filter(keep),
                distinct_listeners(before),
                forall|a: int|
                    0 <= a < kept@.len() ==> exists|b: int|
                        0 <= b < i && before[b] == #[trigger] identities(kept@)[a] && a <= b,
                forall|a: int, b: int|
                    0 <= a < b < kept@.len() ==> !same_listener(
                        #[trigger] identities(kept@)[a],
                        #[trigger] identities(kept@)[b],
                    ),
            decreases self.listeners@.len() - i,
        {
            let ghost kept_before = identities(kept@);
            proof {
                assert(before.subrange(0, i + 1) =~= before.subrange(0, i as int).push(
                    before[i as int],
                ));
                before.subrange(0, i as int).lemma_filter_push(before[i as int], keep);
            }
            if !is_same_listener(self.listeners[i].as_str(), identity) {
                let listener = self.listeners[i].clone();
                kept.push(listener);
                proof {
                    assert(identities(kept@) =~= kept_before.push(before[i as int]));
                    assert forall|a: int, b: int| 0 <= a < b < kept@.len() implies !same_listener(
                        #[trigger] identities(kept@)[a],
                        #[trigger] identities(kept@)[b],
                    ) by {
                        if b == kept@.len() - 1 {
                            let src = choose|s: int|
                                0 <= s < i && before[s] == kept_before[a] && a <= s;
                            assert(!same_listener(before[src], before[i as int]));
                        } else {
                            assert(identities(kept@)[a] == kept_before[a]);
                            assert(identities(kept@)[b] == kept_before[b]);
                        }
                    }
                    assert forall|a: int| 0 <= a < kept@.len() implies exists|b: int|
                        0 <= b < i + 1 && before[b] == #[trigger] identities(kept@)[a] && a <= b by {
                        if a == kept@.len() - 1 {
                            assert(before[i as int] == identities(kept@)[a]);
                        } else {
                            let src = choose|s: int|
                                0 <= s < i && before[s] == kept_before[a] && a <= s;
                            assert(before[src] == identities(kept@)[a]);
                        }
                    }
                }
            }
            i += 1;
        }
        assert(before.subrange(0, i as int) =~= before);
        self.listeners = kept;
    }

    /// Ends the session: nothing stays but the host's name.
    fn end(&mut self)
        ensures
            final(self)@ == old(self)@.ended(),
            final(self).wf(),
    {
        self.active = false;
        self.queue = Vec::new();
        self.listeners = Vec::new();
        self.now_playing = None;
        assert(identities(self.listeners@) =~= Seq::empty());
    }

    /// Starts the session on behalf of `identity`, who becomes its host and a
    /// listener. Without a connected credential the request is turned down and
    /// nothing changes.
    pub fn start(&mut self, identity: String, connected: bool) -> (result: Result<
        Effect,
        SessionError,
    >)
        requires
            old(self).wf(),
        ensures
            final(self).wf(),
            connected ==> result == Ok::<Effect, SessionError>(Effect::SpawnBot) && final(self)@
                == old(self)@.started(identity@),
            !connected ==> result == Err::<Effect, SessionError>(SessionError::NotConnected)
                && final(self)@ == old(self)@,
    {
        if !connected {
            return Err(SessionError::NotConnected);
        }
        self.active = true;
        self.host_identity = identity.clone();
        self.add_listener(identity);
        Ok(Effect::SpawnBot)
    }

    /// Stops the session. Only the host may, under any of its reconnect
    /// suffixes; anybody else is turned down and nothing changes.
    pub fn stop(&mut self, identity: &str) -> (result: Result<Effect, SessionError>)
        requires
            old(self).wf(),
        ensures
            final(self).wf(),
            old(self)@.may_stop(identity@) ==> result == Ok::<Effect, SessionError>(
                Effect::StopBot,
            ) && final(self)@ == old(self)@.ended(),
            !old(self)@.may_stop(identity@) ==> result == Err::<Effect, SessionError>(
                SessionError::NotHost,
            ) && final(self)@ == old(self)@,
    {
        if !is_same_listener(identity, self.host_identity.as_str()) {
            return Err(SessionError::NotHost);
        }
        self.end();
        Ok(Effect::StopBot)
    }

    /// Adds a listener, unless that listener is on the list already.
    pub fn join(&mut self, identity: String)
        requires
            old(self).wf(),
        ensures
            final(self).wf(),
            final(self)@ == old(self)@.joined(identity@),
    {
        self.add_listener(identity);
    }

    /// Removes a listener. When that leaves an active session without
    /// listeners, the caller is asked to schedule the auto-end check.
    pub fn leave(&mut self, identity: &str) -> (effect: Effect)
        requires
            old(self).wf(),
        ensures
            final(self).wf(),
            final(self)@ == old(self)@.left(identity@),
            effect == final(self)@.departure_effect(old(self)@),
    {
        let had_listeners = self.listeners.len() > 0;
        self.remove_listener(identity);
        if self.active && had_listeners && self.listeners.len() == 0 {
            Effect::ScheduleAutoEnd { epoch: self.epoch }
        } else {
            Effect::Nothing
        }
    }

    /// Takes a participant who disconnected or went stale off the listener
    /// list of an active session; an inactive session is left alone.
    pub fn remove_participant(&mut self, identity: &str) -> (effect: Effect)
        requires
            old(self).wf(),
        ensures
            final(self).wf(),
            final(self)@ == if old(self)@.active {
                old(self)@.left(identity@)
            } else {
                old(self)@
            },
            effect == final(self)@.departure_effect(old(self)@),
    {
        if self.active {
            self.leave(identity)
        } else {
            Effect::Nothing
        }
    }

    /// The auto-end check that was scheduled under `epoch`, run once the
    /// grace period has passed. It ends the session if nobody has joined
    /// since and the session is still active without a listener; a check
    /// that a join has overtaken does nothing.
    pub fn grace_elapsed(&mut self, epoch: u64) -> (effect: Effect)
        requires
            old(self).wf(),
        ensures
            final(self).wf(),
            final(self)@ == old(self)@.after_grace(epoch),
            effect == if old(self)@.is_due(epoch) {
                Effect::StopBot
            } else {
                Effect::Nothing
            },
    {
        if epoch == self.epoch && self.active && self.listeners.len() == 0 {
            self.end();
            Effect::StopBot
        } else {
            Effect::Nothing
        }
    }
}

impl JamState {
    /// Appends a track to the queue.
    pub fn enqueue(&mut self, track: QueuedTrack)
        ensures
            final(self)@ == (SessionView { queue: old(self)@.queue.push(track), ..old(self)@ }),
            final(self).wf() == old(self).wf(),
    {
        self.queue.push(track);
    }

    /// Removes the track at `index` and returns it.
    pub fn remove_queued(&mut self, index: usize) -> (result: Result<QueuedTrack, SessionError>)
        ensures
            final(self).wf() == old(self).wf(),
            index < old(self)@.queue.len() ==> result == Ok::<QueuedTrack, SessionError>(
                old(self)@.queue[index as int],
            ) && final(self)@ == (SessionView {
                queue: old(self)@.queue.remove(index as int),
                ..old(self)@
            }),
            index >= old(self)@.queue.len() ==> result == Err::<QueuedTrack, SessionError>(
                SessionError::NoSuchTrack,
            ) && final(self)@ == old(self)@,
    {
        if index < self.queue.len() {
            Ok(self.queue.remove(index))
        } else {
            Err(SessionError::NoSuchTrack)
        }
    }

    /// Skips the track in front: it leaves the queue, and the now-playing
    /// snapshot is dropped so that it is fetched again.
    pub fn skip(&mut self) -> (skipped: Option<QueuedTrack>)
        ensures
            final(self).wf() == old(self).wf(),
            old(self)@.queue.len() > 0 ==> skipped == Some(old(self)@.queue[0]) && final(self)@
                == (SessionView {
                queue: old(self)@.queue.drop_first(),
                now_playing: None,
                ..old(self)@
            }),
            old(self)@.queue.len() == 0 ==> skipped.is_none() && final(self)@ == (SessionView {
                now_playing: None,
                ..old(self)@
            }),
    {
        self.now_playing = None;
        if self.queue.len() > 0 {
            let track = self.queue.remove(0);
            assert(self.queue@ =~= old(self).queue@.drop_first());
            Some(track)
        } else {
            None
        }
    }

    /// Whether the now-playing snapshot has to be fetched: the session is
    /// active, a credential is connected, and there is no snapshot or it is
    /// older than five seconds.
    pub fn needs_refresh(&self, connected: bool, now_ms: u64) -> (stale: bool)
        ensures
            stale == self@.is_stale(connected, now_ms),
    {
        if !self.active || !connected {
            return false;
        }
        match &self.now_playing {
            None => true,
            Some(info) => match info.fetched_at_ms {
                None => true,
                Some(at) => now_ms >= at && now_ms - at > NOW_PLAYING_MAX_AGE_MS,
            },
        }
    }

    /// Records a fresh now-playing snapshot. Where the playing track is known,
    /// the tracks queued in front of it have finished and leave the queue.
    pub fn apply_now_playing(&mut self, current_uri: &str, info: NowPlayingInfo)
        ensures
            final(self).wf() == old(self).wf(),
            final(self)@ == (SessionView {
                queue: if current_uri@.len() > 0 {
                    queue_from(old(self)@.queue, current_uri@)
                } else {
                    old(self)@.queue
                },
                now_playing: Some(info),
                ..old(self)@
            }),
    {
        let uri: String = current_uri.to_owned();
        if !current_uri.is_empty() {
            let mut finished: usize = 0;
            assert(self.queue@.subrange(0, self.queue@.len() as int) =~= self.queue@);
            while finished < self.queue.len() && !(self.queue[finished].spotify_uri == uri)
                invariant
                    finished <= self.queue@.len(),
                    uri@ == current_uri@,
                    queue_from(self.queue@, current_uri@) == queue_from(
                        self.queue@.subrange(finished as int, self.queue@.len() as int),
                        current_uri@,
                    ),
                decreases self.queue@.len() - finished,
            {
                proof {
                    let rest = self.queue@.subrange(finished as int, self.queue@.len() as int);
                    assert(rest[0] == self.queue@[finished as int]);
                    assert(rest.drop_first() =~= self.queue@.subrange(
                        finished + 1,
                        self.queue@.len() as int,
                    ));
                }
                finished += 1;
            }
            let ghost before = self.queue@;
            let mut rest = self.queue.split_off(finished);
            core::mem::swap(&mut rest, &mut self.queue);
            proof {
                let tail = before.subrange(finished as int, before.len() as int);
                assert(self.queue@ == tail);
                if tail.len() > 0 {
                    assert(tail[0] == before[finished as int]);
                }
            }
        } else {
            assert(self.queue@.subrange(0, self.queue@.len() as int) =~= self.queue@);
        }
        self.now_playing = Some(info);
    }
}

/// A session left without listeners that nobody joins before the grace
/// period has passed ends then: it is inactive, its queue and its listener
/// list are empty and nothing is playing.
pub proof fn lemma_abandoned_session_ends(session: SessionView)
    requires
        session.is_abandoned(),
    ensures
        !session.after_grace(session.epoch).active,
        session.after_grace(session.epoch).queue.len() == 0,
        session.after_grace(session.epoch).listeners.len() == 0,
        session.after_grace(session.epoch).now_playing is None,
{
}

/// A join before the grace period has passed cancels the pending auto-end:
/// the check that was scheduled when the list went empty changes nothing
/// any more, neither while the one who joined listens nor after that one
/// has left again.
pub proof fn lemma_join_cancels_auto_end(session: SessionView, id: Seq<char>, gone: Seq<char>)
    requires
        session.listeners.len() == 0,
    ensures
        session.joined(id).epoch != session.epoch,
        session.joined(id).after_grace(session.epoch) == session.joined(id),
        session.joined(id).left(gone).after_grace(session.epoch) == session.joined(id).left(gone),
        session.started(id).left(gone).after_grace(session.epoch) == session.started(id).left(
            gone,
        ),
{
}

/// A departure that empties the list of an active session schedules a check
/// of its own, and that check ends the session unless somebody joins: so a
/// session ends a full grace period after its last listener has gone.
pub proof fn lemma_departure_schedules_its_own_check(session: SessionView, gone: Seq<char>)
    requires
        session.left(gone).emptied_by(session),
    ensures
        session.left(gone).departure_effect(session) == (Effect::ScheduleAutoEnd {
            epoch: session.left(gone).epoch,
        }),
        session.left(gone).is_due(session.left(gone).epoch),
        !session.left(gone).after_grace(session.left(gone).epoch).active,
{
}

/// A check that was scheduled under another epoch than the session's never
/// ends the session.
pub proof fn lemma_stale_check_does_nothing(session: SessionView, epoch: u64)
    requires
        epoch != session.epoch,
    ensures
        session.after_grace(epoch) == session,
{
}

/// While somebody listens no check ends the session.
pub proof fn lemma_no_end_while_listening(session: SessionView, epoch: u64)
    requires
        session.listeners.len() > 0,
    ensures
        session.after_grace(epoch) == session,
{
}

/// When the last listener leaves an active session, the session loses its
/// listeners and stays active until the grace period has passed.
pub proof fn lemma_last_listener_leaving_empties(session: SessionView, id: Seq<char>)
    requires
        session.active,
        session.listeners.len() > 0,
        forall|i: int| 0 <= i < session.listeners.len() ==> same_listener(
            #[trigger] session.listeners[i],
            id,
        ),
    ensures
        session.left(id).emptied_by(session),
        session.left(id).is_abandoned(),
{
    let keep = |l: Seq<char>| !same_listener(l, id);
    broadcast use vstd::seq_lib::group_filter_ensures;

    let kept = session.listeners.filter(keep);
    if kept.len() > 0 {
        assert(keep(kept[0]));
        assert(kept.contains(kept[0]));
        session.listeners.lemma_filter_contains_rev(keep, kept[0]);
    }
}

/// Leaving removes exactly the entries that name the one who left, and keeps
/// the others in their order.
pub proof fn lemma_leave_removes_listener(session: SessionView, id: Seq<char>)
    ensures
        !is_listening(session.left(id).listeners, id),
        forall|i: int|
            0 <= i < session.listeners.len() && !same_listener(#[trigger] session.listeners[i], id)
                ==> session.left(id).listeners.contains(session.listeners[i]),
{
    broadcast use vstd::seq_lib::group_filter_ensures;

    let keep = |l: Seq<char>| !same_listener(l, id);
    let kept = session.listeners.filter(keep);
    assert forall|i: int| 0 <= i < kept.len() implies !same_listener(#[trigger] kept[i], id) by {
        assert(keep(kept[i]));
    }
}

/// A host can always stop its own session, under whatever reconnect suffix
/// it comes back; nobody else can, whatever the identity, the empty one
/// included.
pub proof fn lemma_only_the_host_may_stop(session: SessionView, host: Seq<char>, id: Seq<char>)
    ensures
        session.started(host).may_stop(id) <==> same_listener(id, host),
        session.started(host).may_stop(host),
{
}

} // verus!
