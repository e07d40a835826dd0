//! The one stereo input and the one stereo output of the effect.

use vstd::prelude::*;

verus! {

/// Channels on either side.
pub const CHANNELS: usize = 2;

/// The way that a bus carries samples.
#[derive(Clone, Copy, Debug, PartialEq, Eq, Structural)]
pub enum Direction {
    /// Into the effect.
    Input,
    /// Out of the effect.
    Output,
}

/// What a host asks of a bus.
#[derive(Clone, Copy, Debug, PartialEq, Eq, Structural)]
pub struct BusRequest {
    /// Whether the bus carries audio.
    pub audio: bool,
    /// The way, when it is one that the effect knows.
    pub direction: Option<Direction>,
    /// Which of the buses it is.
    pub index: i32,
}

impl BusRequest {
    /// The request is for the audio input or the audio output.
    pub open spec fn spec_known(self) -> bool {
        self.audio && self.direction is Some && self.index == 0
    }

    /// Whether there is such a bus.
    #[verifier::when_used_as_spec(spec_known)]
    pub fn known(self) -> (known: bool)
        ensures
            known == self.spec_known(),
    {
        self.audio && self.direction.is_some() && self.index == 0
    }
}

/// Return how many buses there are of a kind.
pub fn bus_count(audio: bool, direction: Option<Direction>) -> (count: i32)
    ensures
        0 <= count,
        forall|index: i32|
            0 <= index ==> (index < count <==> #[trigger] (BusRequest {
                audio,
                direction,
                index,
            }).known()),
{
    if audio && direction.is_some() {
        1
    } else {
        0
    }
}

/// Return the name of a bus.
pub fn bus_name(direction: Direction) -> (name: &'static str)
    ensures
        name@ == match direction {
            Direction::Input => "Input"@,
            Direction::Output => "Output"@,
        },
{
    match direction {
        Direction::Input => "Input",
        Direction::Output => "Output",
    }
}

/// Decide whether a host may arrange the speakers of its buses so: one stereo
/// bus on either side. A side without a readable arrangement has none.
pub fn accepts_arrangements(
    input_count: i32,
    output_count: i32,
    input_stereo: Option<bool>,
    output_stereo: Option<bool>,
) -> (accepted: bool)
    ensures
        accepted <==> input_count == 1 && output_count == 1 && input_stereo == Some(true)
            && output_stereo == Some(true),
{
    if input_count != 1 || output_count != 1 {
        return false;
    }
    match (input_stereo, output_stereo) {
        (Some(input), Some(output)) => input && output,
        _ => false,
    }
}

/// Why a port cannot be processed.
#[derive(Clone, Copy, Debug, PartialEq, Eq, Structural)]
pub enum PortRefusal {
    /// It has fewer than two channels.
    NotStereo,
    /// It has more than two channels.
    TooManyChannels,
}

impl PortRefusal {
    /// Return what the host is told.
    pub fn message(self) -> (message: &'static str)
        ensures
            message@ == match self {
                PortRefusal::NotStereo => "WAVE requires a stereo audio port"@,
                PortRefusal::TooManyChannels => "WAVE accepts exactly two audio channels"@,
            },
    {
        match self {
            PortRefusal::NotStereo => "WAVE requires a stereo audio port",
            PortRefusal::TooManyChannels => "WAVE accepts exactly two audio channels",
        }
    }
}

/// Decide whether a port with `channels` channels can be processed.
pub fn check_port(channels: usize) -> (result: Result<(), PortRefusal>)
    ensures
        result == if channels < CHANNELS {
            Err(PortRefusal::NotStereo)
        } else if channels > CHANNELS {
            Err(PortRefusal::TooManyChannels)
        } else {
            Ok(())
        },
{
    if channels < CHANNELS {
        Err(PortRefusal::NotStereo)
    } else if channels > CHANNELS {
        Err(PortRefusal::TooManyChannels)
    } else {
        Ok(())
    }
}

} // verus!
