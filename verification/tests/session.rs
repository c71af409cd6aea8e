use jam_audio::identity::{identity_base, is_same_listener};
use jam_audio::session::{
    plan_spawn, Effect, JamState, NowPlayingInfo, QueuedTrack, SessionError,
    AUTO_END_GRACE_SECS, NOW_PLAYING_MAX_AGE_MS,
};

fn track(uri: &str) -> QueuedTrack {
    QueuedTrack {
        spotify_uri: uri.to_string(),
        name: format!("name of {}", uri),
        artist: "artist".to_string(),
        album_art_url: String::new(),
        duration_ms: 180_000,
        added_by: "sam-1".to_string(),
    }
}

fn snapshot(name: &str, fetched_at_ms: Option<u64>) -> NowPlayingInfo {
    NowPlayingInfo {
        name: name.to_string(),
        artist: "artist".to_string(),
        album_art_url: String::new(),
        duration_ms: 200_000,
        progress_ms: 1_000,
        is_playing: true,
        fetched_at_ms,
    }
}

fn uris(state: &JamState) -> Vec<String> {
    state.queue().iter().map(|t| t.spotify_uri.clone()).collect()
}

#[test]
fn identity_base_strips_a_numeric_suffix() {
    assert_eq!(identity_base("sam-1234"), "sam");
    assert_eq!(identity_base("sam"), "sam");
    assert_eq!(identity_base("sam-"), "sam-");
    assert_eq!(identity_base("sam-12a"), "sam-12a");
    assert_eq!(identity_base("sam-a12"), "sam-a12");
    assert_eq!(identity_base("anna-maria-77"), "anna-maria");
    assert_eq!(identity_base("a-1-2"), "a-1");
    assert_eq!(identity_base("-5"), "");
    assert_eq!(identity_base("1234"), "1234");
    assert_eq!(identity_base(""), "");
    assert_eq!(identity_base("zoë-٣"), "zoë-٣");
    assert_eq!(identity_base("zoë-3"), "zoë");
}

#[test]
fn reconnects_are_the_same_listener() {
    assert!(is_same_listener("sam-1234", "sam-99"));
    assert!(is_same_listener("sam", "sam-99"));
    assert!(!is_same_listener("sam", "samuel"));
    assert!(!is_same_listener("sam-1", "sam-x"));
    assert!(is_same_listener("", ""));
}

#[test]
fn a_new_session_is_inactive_and_empty() {
    let state = JamState::new();
    assert!(!state.is_active());
    assert_eq!(state.host_identity(), "");
    assert_eq!(state.listener_count(), 0);
    assert!(state.queue().is_empty());
    assert!(state.now_playing().is_none());
    assert_eq!(AUTO_END_GRACE_SECS, 30);
    assert_eq!(NOW_PLAYING_MAX_AGE_MS, 5000);
}

#[test]
fn start_needs_a_connected_credential() {
    let mut state = JamState::new();
    assert_eq!(state.start("sam-1".to_string(), false), Err(SessionError::NotConnected));
    assert!(!state.is_active());
    assert_eq!(state.listener_count(), 0);
    assert_eq!(state.host_identity(), "");
}

#[test]
fn start_records_host_and_first_listener_and_asks_for_a_bot() {
    let mut state = JamState::new();
    assert_eq!(state.start("sam-1".to_string(), true), Ok(Effect::SpawnBot));
    assert!(state.is_active());
    assert_eq!(state.host_identity(), "sam-1");
    assert_eq!(state.listeners(), &vec!["sam-1".to_string()]);
    assert!(state.has_listener("sam-777"));
    assert!(!state.has_listener("kim-1"));
}

#[test]
fn join_counts_a_reconnect_once() {
    let mut state = JamState::new();
    state.start("sam-1".to_string(), true).unwrap();
    state.join("kim-5".to_string());
    state.join("kim-6".to_string());
    state.join("sam-2".to_string());
    assert_eq!(state.listeners(), &vec!["sam-1".to_string(), "kim-5".to_string()]);
    assert_eq!(state.listener_count(), 2);
}

#[test]
fn leave_removes_the_listener_under_any_suffix() {
    let mut state = JamState::new();
    state.start("sam-1".to_string(), true).unwrap();
    state.join("kim-5".to_string());
    state.join("lee".to_string());
    assert_eq!(state.leave("kim-900"), Effect::Nothing);
    assert_eq!(state.listeners(), &vec!["sam-1".to_string(), "lee".to_string()]);
    assert_eq!(state.leave("nobody-1"), Effect::Nothing);
    assert_eq!(state.listener_count(), 2);
}

#[test]
fn the_last_listener_leaving_schedules_the_auto_end() {
    let mut state = JamState::new();
    state.start("sam-1".to_string(), true).unwrap();
    state.join("kim-5".to_string());
    assert_eq!(state.leave("sam-1"), Effect::Nothing);
    assert_eq!(state.leave("kim-5"), Effect::ScheduleAutoEnd { epoch: state.epoch() });
    assert!(state.is_active());
    assert_eq!(state.listener_count(), 0);
    assert_eq!(state.leave("kim-5"), Effect::Nothing);
}

#[test]
fn an_abandoned_session_ends_when_the_grace_period_has_passed() {
    let mut state = JamState::new();
    state.start("sam-1".to_string(), true).unwrap();
    state.enqueue(track("spotify:track:1"));
    state.apply_now_playing("", snapshot("song", Some(10)));
    let epoch = match state.leave("sam-2") {
        Effect::ScheduleAutoEnd { epoch } => epoch,
        other => panic!("unexpected {:?}", other),
    };
    assert_eq!(state.grace_elapsed(epoch), Effect::StopBot);
    assert!(!state.is_active());
    assert!(state.queue().is_empty());
    assert!(state.now_playing().is_none());
    assert_eq!(state.listener_count(), 0);
    assert_eq!(state.grace_elapsed(epoch), Effect::Nothing);
}

#[test]
fn a_join_within_the_grace_period_cancels_the_auto_end() {
    let mut state = JamState::new();
    state.start("sam-1".to_string(), true).unwrap();
    state.enqueue(track("spotify:track:1"));
    let epoch = match state.leave("sam-1") {
        Effect::ScheduleAutoEnd { epoch } => epoch,
        other => panic!("unexpected {:?}", other),
    };
    state.join("kim-1".to_string());
    assert_eq!(state.grace_elapsed(epoch), Effect::Nothing);
    assert!(state.is_active());
    assert_eq!(state.listener_count(), 1);
    assert_eq!(state.queue().len(), 1);
}

#[test]
fn a_join_cancels_the_pending_auto_end_even_if_the_listener_leaves_again() {
    let mut state = JamState::new();
    state.start("sam-1".to_string(), true).unwrap();
    state.enqueue(track("spotify:track:1"));
    let first = match state.leave("sam-1") {
        Effect::ScheduleAutoEnd { epoch } => epoch,
        other => panic!("unexpected {:?}", other),
    };
    state.join("kim-1".to_string());
    let second = match state.leave("kim-2") {
        Effect::ScheduleAutoEnd { epoch } => epoch,
        other => panic!("unexpected {:?}", other),
    };
    assert_ne!(first, second);
    assert_eq!(state.grace_elapsed(first), Effect::Nothing);
    assert!(state.is_active());
    assert_eq!(state.queue().len(), 1);
    assert_eq!(state.grace_elapsed(second), Effect::StopBot);
    assert!(!state.is_active());
    assert!(state.queue().is_empty());
}

#[test]
fn the_epoch_rises_when_the_list_goes_from_empty_to_occupied() {
    let mut state = JamState::new();
    assert_eq!(state.epoch(), 0);
    state.join("kim-1".to_string());
    assert_eq!(state.epoch(), 1);
    state.join("lee-1".to_string());
    state.join("kim-2".to_string());
    assert_eq!(state.epoch(), 1);
    state.leave("kim-3");
    state.leave("lee-9");
    assert_eq!(state.epoch(), 1);
    state.start("sam-1".to_string(), true).unwrap();
    assert_eq!(state.epoch(), 2);
    state.stop("sam-1").unwrap();
    assert_eq!(state.epoch(), 2);
    state.start("sam-1".to_string(), true).unwrap();
    assert_eq!(state.epoch(), 3);
}

#[test]
fn a_check_from_an_earlier_session_does_not_end_the_next() {
    let mut state = JamState::new();
    state.start("sam-1".to_string(), true).unwrap();
    let stale = match state.leave("sam-1") {
        Effect::ScheduleAutoEnd { epoch } => epoch,
        other => panic!("unexpected {:?}", other),
    };
    state.stop("sam-1").unwrap();
    assert_eq!(state.grace_elapsed(stale), Effect::Nothing);
    state.start("kim-1".to_string(), true).unwrap();
    let live = match state.leave("kim-1") {
        Effect::ScheduleAutoEnd { epoch } => epoch,
        other => panic!("unexpected {:?}", other),
    };
    assert_eq!(state.grace_elapsed(stale), Effect::Nothing);
    assert!(state.is_active());
    assert_eq!(state.grace_elapsed(live), Effect::StopBot);
}

#[test]
fn only_the_host_may_stop() {
    let mut state = JamState::new();
    state.start("sam-1".to_string(), true).unwrap();
    state.join("kim-5".to_string());
    state.enqueue(track("spotify:track:1"));
    assert_eq!(state.stop("kim-5"), Err(SessionError::NotHost));
    assert!(state.is_active());
    assert_eq!(state.listener_count(), 2);
    assert_eq!(state.queue().len(), 1);
    assert_eq!(state.stop("sam-4242"), Ok(Effect::StopBot));
    assert!(!state.is_active());
    assert_eq!(state.listener_count(), 0);
    assert!(state.queue().is_empty());
    assert!(state.now_playing().is_none());
    assert_eq!(state.host_identity(), "sam-1");
}

#[test]
fn the_empty_identity_is_not_the_host() {
    let mut state = JamState::new();
    state.start("sam-1".to_string(), true).unwrap();
    state.enqueue(track("spotify:track:1"));
    assert_eq!(state.stop(""), Err(SessionError::NotHost));
    assert!(state.is_active());
    assert_eq!(state.listener_count(), 1);
    assert_eq!(state.queue().len(), 1);
    assert_eq!(state.stop("sam"), Ok(Effect::StopBot));
    assert!(!state.is_active());
}

#[test]
fn a_session_can_start_again_after_it_ended() {
    let mut state = JamState::new();
    state.start("sam-1".to_string(), true).unwrap();
    state.stop("sam-1").unwrap();
    assert_eq!(state.start("kim-1".to_string(), true), Ok(Effect::SpawnBot));
    assert!(state.is_active());
    assert_eq!(state.host_identity(), "kim-1");
    assert_eq!(state.listeners(), &vec!["kim-1".to_string()]);
}

#[test]
fn stale_participants_leave_an_active_session_only() {
    let mut state = JamState::new();
    state.join("kim-5".to_string());
    assert_eq!(state.remove_participant("kim-6"), Effect::Nothing);
    assert_eq!(state.listener_count(), 1);
    state.start("sam-1".to_string(), true).unwrap();
    assert_eq!(state.remove_participant("kim-6"), Effect::Nothing);
    assert_eq!(state.listeners(), &vec!["sam-1".to_string()]);
    assert_eq!(
        state.remove_participant("sam-6"),
        Effect::ScheduleAutoEnd { epoch: state.epoch() }
    );
    assert_eq!(state.listener_count(), 0);
}

#[test]
fn queue_removal_by_position() {
    let mut state = JamState::new();
    state.enqueue(track("a"));
    state.enqueue(track("b"));
    state.enqueue(track("c"));
    assert_eq!(state.remove_queued(3).unwrap_err(), SessionError::NoSuchTrack);
    assert_eq!(state.remove_queued(1).unwrap().spotify_uri, "b");
    assert_eq!(uris(&state), vec!["a", "c"]);
    assert_eq!(state.remove_queued(2).unwrap_err(), SessionError::NoSuchTrack);
}

#[test]
fn skip_drops_the_front_track_and_the_snapshot() {
    let mut state = JamState::new();
    assert!(state.skip().is_none());
    state.enqueue(track("a"));
    state.enqueue(track("b"));
    state.apply_now_playing("a", snapshot("a", Some(1)));
    assert_eq!(state.skip().unwrap().spotify_uri, "a");
    assert_eq!(uris(&state), vec!["b"]);
    assert!(state.now_playing().is_none());
}

#[test]
fn finished_tracks_leave_the_queue_when_the_snapshot_arrives() {
    let mut state = JamState::new();
    for uri in ["a", "b", "c", "d"] {
        state.enqueue(track(uri));
    }
    state.apply_now_playing("c", snapshot("c", Some(7)));
    assert_eq!(uris(&state), vec!["c", "d"]);
    assert_eq!(state.now_playing().as_ref().unwrap().name, "c");
    state.apply_now_playing("", snapshot("unknown", None));
    assert_eq!(uris(&state), vec!["c", "d"]);
    state.apply_now_playing("zzz", snapshot("other", Some(9)));
    assert!(state.queue().is_empty());
    assert_eq!(state.now_playing().as_ref().unwrap().name, "other");
}

#[test]
fn the_snapshot_is_stale_after_five_seconds() {
    let mut state = JamState::new();
    assert!(!state.needs_refresh(true, 100));
    state.start("sam-1".to_string(), true).unwrap();
    assert!(state.needs_refresh(true, 100));
    assert!(!state.needs_refresh(false, 100));
    state.apply_now_playing("", snapshot("song", Some(1_000)));
    assert!(!state.needs_refresh(true, 6_000));
    assert!(state.needs_refresh(true, 6_001));
    assert!(!state.needs_refresh(true, 500));
    state.apply_now_playing("", snapshot("song", None));
    assert!(state.needs_refresh(true, 0));
}

#[test]
fn a_running_bot_is_stopped_before_another_starts() {
    assert!(plan_spawn(true));
    assert!(!plan_spawn(false));
}
