//! The two channels that are heard.

use vstd::prelude::*;

verus! {

/// Where sound comes from.
#[derive(Debug, Clone, Copy, PartialEq, Eq, Structural)]
pub enum CaptureChannel {
    /// What the computer plays: the others.
    System,
    /// What the microphone hears: the user.
    Microphone,
}

impl CaptureChannel {
    /// The name of the channel.
    pub open spec fn source_name(self) -> Seq<char> {
        match self {
            CaptureChannel::System => "system"@,
            CaptureChannel::Microphone => "microphone"@,
        }
    }

    /// The name of the channel.
    pub fn source(self) -> (name: &'static str)
        ensures
            name@ == self.source_name(),
    {
        match self {
            CaptureChannel::System => "system",
            CaptureChannel::Microphone => "microphone",
        }
    }

    /// Who speaks on the channel.
    pub open spec fn speaker_name(self) -> Seq<char> {
        match self {
            CaptureChannel::System => "interviewer"@,
            CaptureChannel::Microphone => "user"@,
        }
    }

    /// Who is heard on the channel.
    pub fn speaker(self) -> (name: &'static str)
        ensures
            name@ == self.speaker_name(),
    {
        match self {
            CaptureChannel::System => "interviewer",
            CaptureChannel::Microphone => "user",
        }
    }
}

/// What the computer plays is said by the interviewer, and what the microphone hears by the user.
pub proof fn law_who_speaks_where()
    ensures
        CaptureChannel::System.source_name() == "system"@,
        CaptureChannel::System.speaker_name() == "interviewer"@,
        CaptureChannel::Microphone.source_name() == "microphone"@,
        CaptureChannel::Microphone.speaker_name() == "user"@,
{
}

} // verus!
