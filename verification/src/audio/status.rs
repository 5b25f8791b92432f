//! What is told of the capture.
//!
//! Levels are numbers of single precision and are kept by their bits.

use crate::audio::channel::CaptureChannel;
use crate::audio::speaker::DeviceProbe;
use crate::providers::config::opt_text;
use vstd::prelude::*;

verus! {

/// What the capture does.
#[derive(Debug, Clone, Copy, PartialEq, Eq, Structural)]
pub enum AudioRunState {
    Idle,
    Listening,
    SetupRequired,
    Error,
}

/// The state of the capture and its devices.
#[derive(Debug, Clone)]
pub struct AudioStatus {
    pub state: AudioRunState,
    pub platform: String,
    pub input_device: Option<String>,
    pub output_device: Option<String>,
    pub sample_rate: Option<u32>,
    pub level: u32,
    pub setup_required: bool,
    pub message: Option<String>,
}

/// How loud a channel is.
#[derive(Debug, Clone)]
pub struct AudioLevelChanged {
    pub source: String,
    pub level: u32,
    pub peak: u32,
    pub rms: u32,
    pub sample_rate: u32,
}

/// The state of one channel.
#[derive(Debug, Clone)]
pub struct CaptureChannelStatus {
    pub ready: bool,
    pub sample_rate: Option<u32>,
    pub device_name: Option<String>,
    pub message: Option<String>,
}

/// The state of both channels.
#[derive(Debug, Clone)]
pub struct MeetingCaptureStatus {
    pub remote: bool,
    pub system: CaptureChannelStatus,
    pub microphone: CaptureChannelStatus,
}

/// Why a channel cannot be heard.
#[derive(Debug, Clone)]
pub struct AudioChannelFailure {
    pub source: String,
    pub message: String,
}

/// What is told where there is no device that sound goes to.
pub const NO_OUTPUT_DEVICE: &'static str = "No default output audio device found.";

/// What is told where the microphone cannot be heard.
pub const MICROPHONE_UNSUPPORTED: &'static str =
    "Native microphone meeting capture is only implemented on macOS and Windows.";

/// What there is to say: what is wrong with the devices, or what went wrong last, or that there is
/// no device that sound goes to.
pub open spec fn status_message(
    device_error: Option<Seq<char>>,
    last_error: Option<Seq<char>>,
    has_output: bool,
) -> Option<Seq<char>> {
    if device_error is Some {
        device_error
    } else if last_error is Some {
        last_error
    } else if !has_output {
        Some(NO_OUTPUT_DEVICE@)
    } else {
        None
    }
}

/// What the capture does, as its devices and its last error show.
pub open spec fn shown_state(has_output: bool, has_message: bool, is_listening: bool) -> AudioRunState {
    if !has_output {
        AudioRunState::SetupRequired
    } else if is_listening {
        AudioRunState::Listening
    } else if has_message {
        AudioRunState::Error
    } else {
        AudioRunState::Idle
    }
}

/// The state of the capture. A state that is known for sure is told as it is, and a capture that
/// listens needs no setup.
pub fn build_audio_status(
    devices: DeviceProbe,
    platform: String,
    is_listening: bool,
    sample_rate: Option<u32>,
    level: u32,
    last_error: Option<String>,
    override_state: Option<AudioRunState>,
) -> (status: AudioStatus)
    ensures
        ({
            let message = status_message(
                opt_text(devices.error),
                opt_text(last_error),
                devices.output_device is Some,
            );
            &&& opt_text(status.message) == message
            &&& status.state == match override_state {
                Some(state) => state,
                None => shown_state(devices.output_device is Some, message is Some, is_listening),
            }
            &&& status.setup_required == (devices.output_device is None && override_state != Some(
                AudioRunState::Listening,
            ))
            &&& status.platform == platform
            &&& status.input_device == devices.input_device
            &&& status.output_device == devices.output_device
            &&& status.sample_rate == sample_rate
            &&& status.level == level
        }),
{
    let has_output: bool = devices.output_device.is_some();
    let message: Option<String> = match devices.error {
        Some(error) => Some(error),
        None => match last_error {
            Some(error) => Some(error),
            None => if has_output {
                None
            } else {
                Some(NO_OUTPUT_DEVICE.to_owned())
            },
        },
    };
    let state: AudioRunState = match override_state {
        Some(state) => state,
        None => if !has_output {
            AudioRunState::SetupRequired
        } else if message.is_some() && !is_listening {
            AudioRunState::Error
        } else if is_listening {
            AudioRunState::Listening
        } else {
            AudioRunState::Idle
        },
    };
    let setup_required: bool = match override_state {
        Some(AudioRunState::Listening) => false,
        _ => !has_output,
    };
    AudioStatus {
        state,
        platform,
        input_device: devices.input_device,
        output_device: devices.output_device,
        sample_rate,
        level,
        setup_required,
        message,
    }
}

/// Setup is asked for together with a reason.
pub proof fn law_setup_has_a_reason(
    device_error: Option<Seq<char>>,
    last_error: Option<Seq<char>>,
    is_listening: bool,
)
    ensures
        shown_state(
            false,
            status_message(device_error, last_error, false) is Some,
            is_listening,
        ) is SetupRequired,
        status_message(device_error, last_error, false) is Some,
{
}

/// A channel that is not in use.
pub fn idle_channel_status() -> (status: CaptureChannelStatus)
    ensures
        !status.ready,
        status.sample_rate is None,
        status.device_name is None,
        status.message is None,
{
    CaptureChannelStatus { ready: false, sample_rate: None, device_name: None, message: None }
}

/// A channel that is heard.
pub fn ready_channel_status(sample_rate: Option<u32>, device_name: Option<String>) -> (status:
    CaptureChannelStatus)
    ensures
        status.ready,
        status.sample_rate == sample_rate,
        status.device_name == device_name,
        status.message is None,
{
    CaptureChannelStatus { ready: true, sample_rate, device_name, message: None }
}

/// A channel that cannot be heard.
pub fn failed_channel_status(message: String) -> (status: CaptureChannelStatus)
    ensures
        !status.ready,
        status.sample_rate is None,
        status.device_name is None,
        status.message == Some(message),
{
    CaptureChannelStatus { ready: false, sample_rate: None, device_name: None, message: Some(message) }
}

/// The state of a channel that is already heard; none where it has to be started.
pub fn current_channel_status(
    running: bool,
    sample_rate: Option<u32>,
    device_name: Option<String>,
) -> (status: Option<CaptureChannelStatus>)
    ensures
        status is Some <==> running,
        status matches Some(status) ==> status.ready && status.sample_rate == sample_rate
            && status.device_name == device_name && status.message is None,
{
    if running {
        Some(ready_channel_status(sample_rate, device_name))
    } else {
        None
    }
}

/// The state of a microphone on a system on which none can be heard.
pub fn unsupported_microphone() -> (status: CaptureChannelStatus)
    ensures
        !status.ready,
        status.sample_rate is None,
        status.device_name is None,
        opt_text(status.message) == Some(MICROPHONE_UNSUPPORTED@),
{
    failed_channel_status(MICROPHONE_UNSUPPORTED.to_owned())
}

/// Which channels a meeting needs. What the computer plays is the others, who are there only in a
/// remote meeting. The microphone is the user, who may want not to be heard; but in a meeting in
/// person there is nothing else to hear.
pub open spec fn needs(channel: CaptureChannel, remote: bool, record_user_mic: bool) -> bool {
    match channel {
        CaptureChannel::System => remote,
        CaptureChannel::Microphone => record_user_mic || !remote,
    }
}

/// Whether a channel is listened to in a meeting.
pub fn needs_channel(channel: CaptureChannel, remote: bool, record_user_mic: bool) -> (yes: bool)
    ensures
        yes == needs(channel, remote, record_user_mic),
{
    match channel {
        CaptureChannel::System => remote,
        CaptureChannel::Microphone => record_user_mic || !remote,
    }
}

/// Every meeting is heard on some channel.
pub proof fn law_every_meeting_is_heard(remote: bool, record_user_mic: bool)
    ensures
        needs(CaptureChannel::System, remote, record_user_mic) || needs(
            CaptureChannel::Microphone,
            remote,
            record_user_mic,
        ),
{
}

/// What is told of a channel that is not ready for a reason.
pub fn channel_failure(channel: CaptureChannel, status: &CaptureChannelStatus) -> (failure: Option<
    AudioChannelFailure,
>)
    ensures
        failure is Some <==> !status.ready && status.message is Some,
        failure matches Some(failure) ==> failure.source@ == channel.source_name()
            && failure.message@ == status.message->0@,
{
    if status.ready {
        return None;
    }
    match &status.message {
        Some(message) => Some(
            AudioChannelFailure {
                source: channel.source().to_owned(),
                message: message.as_str().to_owned(),
            },
        ),
        None => None,
    }
}

/// The failures of both channels, that of the system first.
pub fn channel_failures(status: &MeetingCaptureStatus) -> (failures: Vec<AudioChannelFailure>)
    ensures
        ({
            let system = !status.system.ready && status.system.message is Some;
            let microphone = !status.microphone.ready && status.microphone.message is Some;
            &&& failures@.len() == (if system {
                1int
            } else {
                0
            }) + (if microphone {
                1int
            } else {
                0
            })
            &&& system ==> failures@[0].source@ == CaptureChannel::System.source_name()
                && failures@[0].message@ == status.system.message->0@
            &&& microphone ==> failures@.last().source@
                == CaptureChannel::Microphone.source_name() && failures@.last().message@
                == status.microphone.message->0@
        }),
{
    let mut failures: Vec<AudioChannelFailure> = Vec::new();
    if let Some(failure) = channel_failure(CaptureChannel::System, &status.system) {
        failures.push(failure);
    }
    if let Some(failure) = channel_failure(CaptureChannel::Microphone, &status.microphone) {
        failures.push(failure);
    }
    failures
}

/// The state of a meeting that is over.
pub fn stopped_meeting() -> (status: MeetingCaptureStatus)
    ensures
        !status.remote,
        !status.system.ready && status.system.message is None,
        !status.microphone.ready && status.microphone.message is None,
        status.system.sample_rate is None && status.system.device_name is None,
        status.microphone.sample_rate is None && status.microphone.device_name is None,
{
    MeetingCaptureStatus {
        remote: false,
        system: idle_channel_status(),
        microphone: idle_channel_status(),
    }
}

/// What is told: an error of the devices first, then the last error, then that there is no device to
/// hear, and else nothing.
pub proof fn law_what_is_told_first(
    device_error: Seq<char>,
    last_error: Seq<char>,
    other: Option<Seq<char>>,
    has_output: bool,
)
    ensures
        status_message(Some(device_error), other, has_output) == Some(device_error),
        status_message(None, Some(last_error), has_output) == Some(last_error),
        status_message(None, None, false) == Some("No default output audio device found."@),
        status_message(None, None, true) is None,
{
}

/// What is shown: that there is something to set up, as long as there is no device to hear; else that
/// it listens; else that something failed; else that it is idle.
pub proof fn law_what_is_shown_first(has_message: bool, is_listening: bool)
    ensures
        shown_state(false, has_message, is_listening) == AudioRunState::SetupRequired,
        shown_state(true, has_message, true) == AudioRunState::Listening,
        shown_state(true, true, false) == AudioRunState::Error,
        shown_state(true, false, false) == AudioRunState::Idle,
{
}

/// The others are heard through the computer and only where they are elsewhere; the user is heard
/// where all are in one room, and elsewhere only on request.
pub proof fn law_who_is_heard_where(remote: bool, record_user_mic: bool)
    ensures
        needs(CaptureChannel::System, remote, record_user_mic) <==> remote,
        needs(CaptureChannel::Microphone, false, record_user_mic),
        needs(CaptureChannel::Microphone, true, record_user_mic) <==> record_user_mic,
{
}

} // verus!
