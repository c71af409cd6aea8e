use jam_audio::fanout::{poll_stream, stream_step, Received, StreamAction};
use tokio::sync::broadcast::error::TryRecvError;
use jam_audio::capture::{is_running, Activation, BuildProbe, CaptureError, Unsupported};
use jam_audio::enumerate::WindowInfo;
use jam_audio::framer::{AudioFrame, FRAME_BYTES, FRAME_SAMPLES};
use jam_audio::jam_bot::{JamBot, JamBotError, Published};
use jam_audio::normalize::AudioChunk;

fn window(pid: u32, title: &str, exe: &str) -> WindowInfo {
    WindowInfo { pid, hwnd: 0, title: title.to_string(), exe_name: exe.to_string() }
}

fn player() -> Vec<WindowInfo> {
    vec![window(3, "editor", "code.exe"), window(1234, "Spotify Premium", "Spotify.exe")]
}

fn supported() -> BuildProbe {
    BuildProbe::Value("22631".to_string())
}

fn running_bot() -> JamBot {
    match JamBot::start(player(), &supported(), |_, _| Activation::Started) {
        Ok(bot) => bot,
        Err(e) => panic!("bot did not start: {:?}", e),
    }
}

fn chunk_of_frames(first: u32, frames: u32) -> AudioChunk {
    let mut samples = Vec::new();
    for f in 0..frames {
        for _ in 0..FRAME_SAMPLES {
            samples.push(first + f);
        }
    }
    AudioChunk { samples, sample_rate: 48000, channels: 2 }
}

fn next_frame_tag(rx: &mut tokio::sync::broadcast::Receiver<AudioFrame>) -> Option<u32> {
    match poll_stream(rx) {
        StreamAction::Send(bytes) => {
            assert_eq!(bytes.len(), FRAME_BYTES);
            Some(u32::from_le_bytes([bytes[0], bytes[1], bytes[2], bytes[3]]))
        }
        StreamAction::Idle => None,
        other => panic!("unexpected {:?}", other),
    }
}

#[test]
fn start_without_the_player_finds_no_device() {
    let mut activated = false;
    let result = JamBot::start(vec![window(3, "editor", "code.exe")], &supported(), |_, _| {
        activated = true;
        Activation::Started
    });
    assert_eq!(result.err(), Some(JamBotError::DeviceNotFound));
    assert!(!activated);
    let result = JamBot::start(Vec::new(), &BuildProbe::Value("19045".to_string()), |_, _| {
        Activation::Started
    });
    assert_eq!(result.err(), Some(JamBotError::DeviceNotFound));
}

#[test]
fn start_gives_no_bot_when_the_activation_fails_or_is_overdue() {
    let cases = [
        (Activation::Failed, CaptureError::ActivationFailed),
        (Activation::TimedOut, CaptureError::Timeout),
        (Activation::SetupFailed, CaptureError::SetupFailed),
    ];
    for (activation, error) in cases {
        let mut seen = None;
        let result = JamBot::start(player(), &supported(), |pid, flag| {
            seen = Some((pid, flag));
            activation
        });
        assert_eq!(result.err(), Some(JamBotError::CaptureFailed(error)));
        let (pid, flag) = seen.unwrap();
        assert_eq!(pid, 1234);
        assert!(!is_running(&flag));
    }
    assert_eq!(
        JamBotError::CaptureFailed(CaptureError::Timeout).message(),
        "activation timeout"
    );
}

#[test]
fn start_on_an_old_build_is_unsupported() {
    let mut activated = false;
    let result = JamBot::start(player(), &BuildProbe::Value("19045".to_string()), |_, _| {
        activated = true;
        Activation::Started
    });
    assert_eq!(
        result.err(),
        Some(JamBotError::CaptureFailed(CaptureError::Unsupported(Unsupported::BuildTooOld(
            19045
        ))))
    );
    assert!(!activated);
    let result = JamBot::start(player(), &BuildProbe::OtherPlatform, |_, _| Activation::Started);
    assert_eq!(
        result.err(),
        Some(JamBotError::CaptureFailed(CaptureError::Unsupported(Unsupported::OtherPlatform)))
    );
}

#[test]
fn start_with_the_player_running_captures_its_process() {
    let bot = running_bot();
    assert_eq!(bot.pid(), Some(1234));
    let handle = bot.capture_handle().as_ref().unwrap();
    assert_eq!(handle.pid(), 1234);
    assert!(!handle.stopped());
    assert!(is_running(&handle.stop_flag()));
}

#[test]
fn stop_is_idempotent_and_a_new_bot_can_start() {
    let mut bot = running_bot();
    let flag = bot.capture_handle().as_ref().unwrap().stop_flag();
    assert!(bot.stop());
    assert!(!is_running(&flag));
    assert!(bot.capture_handle().as_ref().unwrap().stopped());
    assert!(!bot.stop());
    assert_eq!(bot.pid(), Some(1234));
    drop(bot);
    let again = running_bot();
    assert_eq!(again.pid(), Some(1234));
    assert!(is_running(&again.capture_handle().as_ref().unwrap().stop_flag()));
}

#[test]
fn publishing_without_subscribers_is_no_error() {
    let bot = running_bot();
    let mut publisher = bot.publisher();
    assert_eq!(
        publisher.publish_chunk(&chunk_of_frames(1, 3)),
        Published { frames: 3, delivered: 0 }
    );
    assert_eq!(publisher.frame_count(), 3);
    let done = publisher.publish_chunk(&chunk_of_frames(9, 2));
    assert_eq!(done.delivered, 0);
    assert_eq!(publisher.frame_count(), 5);
}

#[test]
fn every_subscriber_receives_the_same_frames_in_order() {
    let bot = running_bot();
    let mut publisher = bot.publisher();
    let mut first = bot.subscribe();
    let mut second = bot.subscribe();
    let done = publisher.publish_chunk(&chunk_of_frames(100, 5));
    assert_eq!(done, Published { frames: 5, delivered: 5 });
    for tag in 100..105 {
        assert_eq!(next_frame_tag(&mut first), Some(tag));
    }
    for tag in 100..105 {
        assert_eq!(next_frame_tag(&mut second), Some(tag));
    }
    assert_eq!(next_frame_tag(&mut first), None);
    assert_eq!(next_frame_tag(&mut second), None);
}

#[test]
fn a_late_subscriber_sees_frames_from_its_subscription_on() {
    let bot = running_bot();
    let mut publisher = bot.publisher();
    let mut early = bot.subscribe();
    publisher.publish_chunk(&chunk_of_frames(1, 2));
    let mut late = bot.subscribe();
    publisher.publish_chunk(&chunk_of_frames(3, 2));
    for tag in 1..5 {
        assert_eq!(next_frame_tag(&mut early), Some(tag));
    }
    for tag in 3..5 {
        assert_eq!(next_frame_tag(&mut late), Some(tag));
    }
    assert_eq!(next_frame_tag(&mut late), None);
}

#[test]
fn partial_chunks_are_published_once_the_frame_is_full() {
    let bot = running_bot();
    let mut publisher = bot.publisher();
    let mut rx = bot.subscribe();
    let half = AudioChunk { samples: vec![7; FRAME_SAMPLES / 2], sample_rate: 48000, channels: 2 };
    assert_eq!(publisher.publish_chunk(&half).frames, 0);
    assert_eq!(next_frame_tag(&mut rx), None);
    assert_eq!(publisher.publish_chunk(&half).frames, 1);
    assert_eq!(next_frame_tag(&mut rx), Some(7));
    assert_eq!(publisher.frame_count(), 1);
}

#[test]
fn a_lagging_subscriber_is_told_and_resumes_with_kept_frames() {
    let bot = running_bot();
    let mut publisher = bot.publisher();
    let mut slow = bot.subscribe();
    let mut fast = bot.subscribe();
    for tag in 0..70 {
        publisher.publish_chunk(&chunk_of_frames(tag, 1));
        assert_eq!(next_frame_tag(&mut fast), Some(tag));
    }
    assert_eq!(poll_stream(&mut slow), StreamAction::Skip { dropped: 6 });
    for tag in 6..70 {
        assert_eq!(next_frame_tag(&mut slow), Some(tag));
    }
    assert_eq!(next_frame_tag(&mut slow), None);
    publisher.publish_chunk(&chunk_of_frames(70, 1));
    assert_eq!(next_frame_tag(&mut slow), Some(70));
}

#[test]
fn a_subscriber_exactly_one_backlog_behind_has_not_lagged() {
    let bot = running_bot();
    let mut publisher = bot.publisher();
    let mut rx = bot.subscribe();
    publisher.publish_chunk(&chunk_of_frames(0, 64));
    for tag in 0..64 {
        assert_eq!(next_frame_tag(&mut rx), Some(tag));
    }
    publisher.publish_chunk(&chunk_of_frames(64, 65));
    assert_eq!(rx.try_recv().err(), Some(TryRecvError::Lagged(1)));
    assert_eq!(next_frame_tag(&mut rx), Some(65));
}

#[test]
fn the_stream_closes_when_the_bot_is_gone() {
    let bot = running_bot();
    let mut publisher = bot.publisher();
    let mut rx = bot.subscribe();
    publisher.publish_chunk(&chunk_of_frames(5, 1));
    drop(publisher);
    drop(bot);
    assert_eq!(next_frame_tag(&mut rx), Some(5));
    assert_eq!(poll_stream(&mut rx), StreamAction::Close);
    assert_eq!(rx.try_recv().err(), Some(TryRecvError::Closed));
}

#[test]
fn the_transport_sends_frames_as_bytes_and_skips_lags() {
    let frame = AudioFrame { data: vec![0x3f80_0000; FRAME_SAMPLES] };
    match stream_step(Received::Frame(frame)) {
        StreamAction::Send(bytes) => {
            assert_eq!(bytes.len(), FRAME_BYTES);
            assert_eq!(&bytes[..8], &[0, 0, 0x80, 0x3f, 0, 0, 0x80, 0x3f]);
        }
        other => panic!("unexpected {:?}", other),
    }
    assert_eq!(stream_step(Received::Lagged(12)), StreamAction::Skip { dropped: 12 });
    assert_eq!(stream_step(Received::Empty), StreamAction::Idle);
    assert_eq!(stream_step(Received::Closed), StreamAction::Close);
}

#[test]
fn polling_the_stream_follows_the_endpoint() {
    let bot = running_bot();
    let mut publisher = bot.publisher();
    let mut rx = bot.subscribe();
    assert_eq!(poll_stream(&mut rx), StreamAction::Idle);
    publisher.publish_chunk(&chunk_of_frames(0x4000_0000, 1));
    match poll_stream(&mut rx) {
        StreamAction::Send(bytes) => {
            assert_eq!(bytes.len(), 7680);
            assert_eq!(&bytes[..4], &2.0f32.to_le_bytes());
        }
        other => panic!("unexpected {:?}", other),
    }
    publisher.publish_chunk(&chunk_of_frames(0, 80));
    assert_eq!(poll_stream(&mut rx), StreamAction::Skip { dropped: 16 });
}

#[test]
fn bot_errors_say_why() {
    assert_eq!(
        JamBotError::DeviceNotFound.message(),
        "Spotify.exe not found \u{2014} is Spotify running?"
    );
    assert_eq!(
        JamBotError::CaptureFailed(CaptureError::Unsupported(Unsupported::BuildTooOld(17763)))
            .message(),
        "Per-process audio capture requires Windows 10 build 20348+. This PC has build 17763."
    );
}

#[test]
fn subscribers_and_publishers_are_on_the_bots_own_endpoint() {
    let bot = running_bot();
    let other = running_bot();
    let first = bot.subscribe();
    let second = bot.subscribe();
    let foreign = other.subscribe();
    assert!(first.same_channel(&second));
    assert!(!first.same_channel(&foreign));
    let mut publisher = bot.publisher();
    let mut rx = bot.subscribe();
    let mut elsewhere = other.subscribe();
    assert_eq!(publisher.publish_chunk(&chunk_of_frames(3, 1)).delivered, 1);
    assert_eq!(next_frame_tag(&mut rx), Some(3));
    assert_eq!(next_frame_tag(&mut elsewhere), None);
    drop((first, second, foreign));
}

#[test]
fn the_endpoint_keeps_a_backlog_of_64_frames() {
    let bot = running_bot();
    let mut publisher = bot.publisher();
    let mut rx = bot.subscribe();
    publisher.publish_chunk(&chunk_of_frames(0, 64));
    assert_eq!(next_frame_tag(&mut rx), Some(0));
    let mut rx = bot.subscribe();
    publisher.publish_chunk(&chunk_of_frames(100, 65));
    assert_eq!(poll_stream(&mut rx), StreamAction::Skip { dropped: 1 });
    assert_eq!(next_frame_tag(&mut rx), Some(101));
}
