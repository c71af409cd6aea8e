//! The capture engine's control: the capability check, the handle that stops
//! a session, and the decisions of the capture thread.
//!
//! The thread itself only performs what it is told: it waits, reads, forwards
//! and releases, and reports each outcome back as an event.

use crate::text::{decimal_digits, decimal_text, digit_char, to_chars};
use std::sync::atomic::{AtomicBool, Ordering};
use std::sync::Arc;
use vstd::prelude::*;
use vstd::string::StringExecFns;

verus! {

/// The first build of the operating system that captures one process.
pub const MIN_LOOPBACK_BUILD: u32 = 20348;

/// How long the thread waits for the activation to complete.
pub const ACTIVATION_TIMEOUT_MS: u32 = 5000;

/// How long the thread waits for a packet before it looks at the stop flag
/// again.
pub const WAIT_TIMEOUT_MS: u32 = 100;

/// The buffer flag that marks a packet as silence.
pub const BUFFER_FLAG_SILENT: u32 = 0x2;

/// What reading the build number from the system gave.
#[derive(Debug)]
pub enum BuildProbe {
    /// This is not the family of systems that offers the capture interface.
    OtherPlatform,
    /// The version key could not be opened.
    KeyUnreadable,
    /// The build number could not be read from the key.
    ValueUnreadable,
    /// The build number as the system holds it, a text.
    Value(String),
}

/// Why this machine cannot capture.
#[derive(Clone, Copy, Debug, PartialEq, Eq)]
pub enum Unsupported {
    OtherPlatform,
    VersionUnreadable,
    BuildUnreadable,
    /// The build is older than `MIN_LOOPBACK_BUILD`.
    BuildTooOld(u32),
}

/// Why a capture session did not start or did not go on.
#[derive(Clone, Copy, Debug, PartialEq, Eq)]
pub enum CaptureError {
    /// The platform does not meet the precondition; retrying is pointless.
    Unsupported(Unsupported),
    /// The system turned the activation down.
    ActivationFailed,
    /// The activation did not complete in time.
    Timeout,
    /// The stream could not be set up after the activation.
    SetupFailed,
    /// A packet could not be given back.
    ReadFailed,
}

/// How the activation of the capture stream ended.
#[derive(Clone, Copy, Debug, PartialEq, Eq)]
pub enum Activation {
    /// The stream is set up and started.
    Started,
    /// The system turned the activation down.
    Failed,
    /// The activation did not complete within the timeout.
    TimedOut,
    /// The stream could not be set up after the activation.
    SetupFailed,
}

/// What an activation comes to for the one who asked for the capture.
pub open spec fn activation_result(activation: Activation) -> Result<(), CaptureError> {
    match activation {
        Activation::Started => Ok(()),
        Activation::Failed => Err(CaptureError::ActivationFailed),
        Activation::TimedOut => Err(CaptureError::Timeout),
        Activation::SetupFailed => Err(CaptureError::SetupFailed),
    }
}

/// The text without the NUL characters at its ends.
pub open spec fn trim_nuls(s: Seq<char>) -> Seq<char>
    decreases s.len(),
{
    if s.len() > 0 && s[0] == '\0' {
        trim_nuls(s.drop_first())
    } else if s.len() > 0 && s.last() == '\0' {
        trim_nuls(s.drop_last())
    } else {
        s
    }
}

/// The value of a digit.
pub open spec fn digit_value(c: char) -> int {
    c as u32 - 48
}

/// Whether every character is a decimal digit.
pub open spec fn all_digits(s: Seq<char>) -> bool {
    forall|i: int| 0 <= i < s.len() ==> 48 <= #[trigger] s[i] as u32 <= 57
}

/// The number that a run of decimal digits writes.
pub open spec fn decimal_value(digits: Seq<char>) -> int
    decreases digits.len(),
{
    if digits.len() == 0 {
        0
    } else {
        10 * decimal_value(digits.drop_last()) + digit_value(digits.last())
    }
}

/// The digits of a number text: the text without one leading plus sign.
pub open spec fn unsigned_digits(s: Seq<char>) -> Seq<char> {
    if s.len() > 0 && s[0] == '+' {
        s.drop_first()
    } else {
        s
    }
}

/// The number a text writes, as an unsigned 32-bit parse reads it: an
/// optional plus sign and at least one digit, no more than `u32::MAX`;
/// everything else counts as zero.
pub open spec fn parsed_or_zero(s: Seq<char>) -> int {
    let digits = unsigned_digits(s);
    if digits.len() > 0 && all_digits(digits) && decimal_value(digits) <= u32::MAX {
        decimal_value(digits)
    } else {
        0
    }
}

/// The build number that the system's text gives.
pub open spec fn build_number(text: Seq<char>) -> int {
    parsed_or_zero(trim_nuls(text))
}

/// What the capability check answers to a probe.
pub open spec fn support_of(probe: BuildProbe) -> Result<(), CaptureError> {
    match probe {
        BuildProbe::OtherPlatform => Err(CaptureError::Unsupported(Unsupported::OtherPlatform)),
        BuildProbe::KeyUnreadable => Err(
            CaptureError::Unsupported(Unsupported::VersionUnreadable),
        ),
        BuildProbe::ValueUnreadable => Err(CaptureError::Unsupported(Unsupported::BuildUnreadable)),
        BuildProbe::Value(text) => if build_number(text@) < MIN_LOOPBACK_BUILD {
            Err(CaptureError::Unsupported(Unsupported::BuildTooOld(build_number(text@) as u32)))
        } else {
            Ok(())
        },
    }
}

/// A longer run of digits writes a number at least as large as any of its
/// beginnings.
proof fn lemma_decimal_value_grows(digits: Seq<char>, n: int)
    requires
        0 <= n <= digits.len(),
        all_digits(digits),
    ensures
        0 <= decimal_value(digits.subrange(0, n)) <= decimal_value(digits),
    decreases digits.len() - n,
{
    if n < digits.len() {
        let next = digits.subrange(0, n + 1);
        assert(next.drop_last() =~= digits.subrange(0, n));
        assert(next.last() == digits[n]);
        lemma_decimal_value_grows(digits, n + 1);
        if n == 0 {
            assert(digits.subrange(0, 0).len() == 0);
        } else {
            lemma_decimal_value_nonnegative(digits.subrange(0, n));
        }
    } else {
        assert(digits.subrange(0, n) =~= digits);
        lemma_decimal_value_nonnegative(digits);
    }
}

proof fn lemma_decimal_value_nonnegative(digits: Seq<char>)
    requires
        all_digits(digits),
    ensures
        0 <= decimal_value(digits),
    decreases digits.len(),
{
    if digits.len() > 0 {
        lemma_decimal_value_nonnegative(digits.drop_last());
    }
}

/// Reads the build number from the system's text. A text that is no number
/// reads as zero.
pub fn parse_build_number(text: &str) -> (build: u32)
    ensures
        build == build_number(text@),
{
    let chars = to_chars(text);
    let mut start: usize = 0;
    let mut end: usize = chars.len();
    assert(chars@.subrange(0, chars@.len() as int) =~= chars@);
    while start < end && chars[start] == '\0'
        invariant
            start <= end <= chars@.len(),
            trim_nuls(chars@) == trim_nuls(chars@.subrange(start as int, end as int)),
        decreases end - start,
    {
        proof {
            let s = chars@.subrange(start as int, end as int);
            assert(s.drop_first() =~= chars@.subrange(start + 1, end as int));
        }
        start += 1;
    }
    while start < end && chars[end - 1] == '\0'
        invariant
            start <= end <= chars@.len(),
            trim_nuls(chars@) == trim_nuls(chars@.subrange(start as int, end as int)),
            start < end ==> chars@[start as int] != '\0',
        decreases end - start,
    {
        proof {
            let s = chars@.subrange(start as int, end as int);
            assert(s[0] == chars@[start as int]);
            assert(s.drop_last() =~= chars@.subrange(start as int, end - 1));
        }
        end -= 1;
    }
    let ghost trimmed = chars@.subrange(start as int, end as int);
    proof {
        if start < end {
            assert(trimmed[0] == chars@[start as int]);
            assert(trimmed.last() == chars@[end - 1]);
        }
        assert(trim_nuls(trimmed) == trimmed);
    }
    if start < end && chars[start] == '+' {
        start += 1;
    }
    let ghost digits = chars@.subrange(start as int, end as int);
    assert(digits =~= unsigned_digits(trimmed));
    if start == end {
        return 0;
    }
    let mut value: u64 = 0;
    let mut i: usize = start;
    assert(digits.subrange(0, 0) =~= Seq::empty());
    while i < end
        invariant
            start <= i <= end <= chars@.len(),
            digits == chars@.subrange(start as int, end as int),
            digits == unsigned_digits(trim_nuls(text@)),
            all_digits(digits.subrange(0, i - start)),
            value == decimal_value(digits.subrange(0, i - start)),
            value <= u32::MAX,
        decreases end - i,
    {
        let code = chars[i] as u32;
        if code < 48 || code > 57 {
            assert(digits[i - start] == chars@[i as int]);
            assert(!all_digits(digits));
            return 0;
        }
        proof {
            let next = digits.subrange(0, i - start + 1);
            assert(next.drop_last() =~= digits.subrange(0, i - start));
            assert(next.last() == chars@[i as int]);
            assert forall|k: int| 0 <= k < next.len() implies 48 <= #[trigger] next[k] as u32
                <= 57 by {
                if k < i - start {
                    assert(next[k] == digits.subrange(0, i - start)[k]);
                }
            }
        }
        value = value * 10 + (code - 48) as u64;
        if value > u32::MAX as u64 {
            proof {
                if all_digits(digits) {
                    lemma_decimal_value_grows(digits, i - start + 1);
                }
            }
            return 0;
        }
        i += 1;
    }
    assert(digits.subrange(0, i - start) =~= digits);
    value as u32
}

/// The capability check: whether this machine can capture the audio of one
/// process.
pub fn check_process_loopback_support(probe: &BuildProbe) -> (result: Result<(), CaptureError>)
    ensures
        result == support_of(*probe),
{
    match probe {
        BuildProbe::OtherPlatform => Err(CaptureError::Unsupported(Unsupported::OtherPlatform)),
        BuildProbe::KeyUnreadable => Err(
            CaptureError::Unsupported(Unsupported::VersionUnreadable),
        ),
        BuildProbe::ValueUnreadable => Err(CaptureError::Unsupported(Unsupported::BuildUnreadable)),
        BuildProbe::Value(text) => {
            let build = parse_build_number(text.as_str());
            if build < MIN_LOOPBACK_BUILD {
                Err(CaptureError::Unsupported(Unsupported::BuildTooOld(build)))
            } else {
                Ok(())
            }
        },
    }
}

/// The reason of an error in words.
pub open spec fn message_of(error: CaptureError) -> Seq<char> {
    match error {
        CaptureError::Unsupported(Unsupported::OtherPlatform) =>
            "WASAPI capture is only supported on Windows"@,
        CaptureError::Unsupported(Unsupported::VersionUnreadable) =>
            "Cannot read Windows version from registry"@,
        CaptureError::Unsupported(Unsupported::BuildUnreadable) =>
            "Cannot read CurrentBuildNumber"@,
        CaptureError::Unsupported(Unsupported::BuildTooOld(build)) =>
            "Per-process audio capture requires Windows 10 build 20348+. This PC has build "@
                + decimal_digits(build as nat) + "."@,
        CaptureError::ActivationFailed => "activation failed"@,
        CaptureError::Timeout => "activation timeout"@,
        CaptureError::SetupFailed => "audio client setup failed"@,
        CaptureError::ReadFailed => "capture buffer could not be released"@,
    }
}

impl CaptureError {
    /// The reason in words, for whoever asked for the capture.
    pub fn message(&self) -> (text: String)
        ensures
            text@ == message_of(*self),
    {
        match self {
            CaptureError::Unsupported(Unsupported::OtherPlatform) => String::from_str(
                "WASAPI capture is only supported on Windows",
            ),
            CaptureError::Unsupported(Unsupported::VersionUnreadable) => String::from_str(
                "Cannot read Windows version from registry",
            ),
            CaptureError::Unsupported(Unsupported::BuildUnreadable) => String::from_str(
                "Cannot read CurrentBuildNumber",
            ),
            CaptureError::Unsupported(Unsupported::BuildTooOld(build)) => {
                let mut text = String::from_str(
                    "Per-process audio capture requires Windows 10 build 20348+. This PC has build ",
                );
                text.append(decimal_text(*build).as_str());
                text.append(".");
                text
            },
            CaptureError::ActivationFailed => String::from_str("activation failed"),
            CaptureError::Timeout => String::from_str("activation timeout"),
            CaptureError::SetupFailed => String::from_str("audio client setup failed"),
            CaptureError::ReadFailed => String::from_str("capture buffer could not be released"),
        }
    }
}

/// The digits of a number write that number.
pub proof fn lemma_decimal_digits(n: nat)
    ensures
        decimal_digits(n).len() > 0,
        all_digits(decimal_digits(n)),
        decimal_value(decimal_digits(n)) == n,
    decreases n,
{
    if n < 10 {
        let digits = decimal_digits(n);
        assert(digits.drop_last() =~= Seq::<char>::empty());
        assert(decimal_value(digits.drop_last()) == 0);
        assert(digits.last() == digit_char(n as int));
    } else {
        lemma_decimal_digits(n / 10);
        let head = decimal_digits(n / 10);
        let digits = decimal_digits(n);
        assert(digits.drop_last() =~= head);
        assert(digits.last() == digit_char((n % 10) as int));
    }
}

/// A build number written in decimal reads back as the same number.
pub proof fn lemma_build_number_round_trip(build: u32)
    ensures
        build_number(decimal_digits(build as nat)) == build,
{
    let digits = decimal_digits(build as nat);
    lemma_decimal_digits(build as nat);
    assert(48 <= digits[0] as u32 <= 57);
    assert(48 <= digits.last() as u32 <= 57);
    assert(trim_nuls(digits) == digits);
    assert(unsigned_digits(digits) == digits);
}

/// The handle to a capture session: the target process and the stop flag
/// that the session's thread watches.
pub struct CaptureHandle {
    pid: u32,
    running: Arc<AtomicBool>,
    stopped: bool,
}

impl CaptureHandle {
    /// The process whose audio is captured.
    pub closed spec fn target(&self) -> u32 {
        self.pid
    }

    /// Whether the session has been told to stop.
    pub closed spec fn is_stopped(&self) -> bool {
        self.stopped
    }

    /// The session's stop flag, shared with the thread that watches it.
    pub closed spec fn flag(&self) -> Arc<AtomicBool> {
        self.running
    }

    /// The process whose audio is captured.
    pub fn pid(&self) -> (pid: u32)
        ensures
            pid == self.target(),
    {
        self.pid
    }

    /// Whether the session has been told to stop.
    pub fn stopped(&self) -> (stopped: bool)
        ensures
            stopped == self.is_stopped(),
    {
        self.stopped
    }

    /// The stop flag, for the session's thread to watch: another handle to
    /// the very flag that stopping the session lowers.
    pub fn stop_flag(&self) -> (flag: Arc<AtomicBool>)
        ensures
            flag == self.flag(),
    {
        self.running.clone()
    }
}

/// Whether `result` is what a start on `pid` comes to once the activation
/// has ended: a running handle on the process with that stop flag if the
/// stream started, and the activation's error otherwise.
pub open spec fn is_start_result(
    pid: u32,
    flag: Arc<AtomicBool>,
    activation: Activation,
    result: Result<CaptureHandle, CaptureError>,
) -> bool {
    match activation_result(activation) {
        Ok(_) => result matches Ok(handle) && handle.target() == pid && !handle.is_stopped()
            && handle.flag() == flag,
        Err(error) => result matches Err(e) && e == error,
    }
}

/// Concludes a start once the activation has ended. A stream that started
/// gives the handle to the session; a failed or overdue activation gives its
/// error and no handle, and the flag is lowered so that nothing goes on
/// running.
pub fn conclude_start(pid: u32, flag: Arc<AtomicBool>, activation: Activation) -> (result: Result<
    CaptureHandle,
    CaptureError,
>)
    ensures
        is_start_result(pid, flag, activation, result),
{
    match activation {
        Activation::Started => Ok(CaptureHandle { pid, running: flag, stopped: false }),
        Activation::Failed => {
            flag.store(false, Ordering::SeqCst);
            Err(CaptureError::ActivationFailed)
        },
        Activation::TimedOut => {
            flag.store(false, Ordering::SeqCst);
            Err(CaptureError::Timeout)
        },
        Activation::SetupFailed => {
            flag.store(false, Ordering::SeqCst);
            Err(CaptureError::SetupFailed)
        },
    }
}

/// Starts a capture session on a process. The capability check comes first:
/// on a platform that does not pass it nothing is activated. Then `activate`
/// is given the process and the session's stop flag, raised for running; it
/// sets the capture thread to work and waits for the activation to end. A
/// stream that started gives the handle; a failed or overdue activation is
/// the error of the start.
pub fn start_capture<F: FnOnce(u32, Arc<AtomicBool>) -> Activation>(
    pid: u32,
    probe: &BuildProbe,
    activate: F,
) -> (result: Result<CaptureHandle, CaptureError>)
    requires
        forall|p: u32, flag: Arc<AtomicBool>| call_requires(activate, (p, flag)),
    ensures
        support_of(*probe) matches Err(error) ==> result matches Err(e) && e == error,
        support_of(*probe) is Ok ==> exists|flag: Arc<AtomicBool>, activation: Activation|
            call_ensures(activate, (pid, flag), activation) && is_start_result(
                pid,
                flag,
                activation,
                result,
            ),
{
    match check_process_loopback_support(probe) {
        Err(e) => Err(e),
        Ok(()) => {
            let flag = Arc::new(AtomicBool::new(true));
            let activation = activate(pid, flag.clone());
            conclude_start(pid, flag, activation)
        },
    }
}

/// Tells the session to stop by lowering its flag. It returns whether this
/// call was the one that stopped it; stopping again changes nothing.
pub fn stop_capture(handle: &mut CaptureHandle) -> (first: bool)
    ensures
        final(handle).is_stopped(),
        final(handle).target() == old(handle).target(),
        final(handle).flag() == old(handle).flag(),
        first == !old(handle).is_stopped(),
{
    handle.running.store(false, Ordering::SeqCst);
    let first = !handle.stopped;
    handle.stopped = true;
    first
}

/// Reads a stop flag: whether the session is to go on.
pub fn is_running(flag: &AtomicBool) -> bool {
    flag.load(Ordering::SeqCst)
}

} // verus!
