//! Stereo pass-through in front of the capture engine.

use crate::binary::{Binary32, Binary64};
use crate::engine::{Capture, CaptureEngine};
use crate::publication::WaveformPublication;
use crate::timing::TransportInfo;
use vstd::prelude::*;
use vstd::slice::*;

verus! {

/// What a host says of its transport.
#[derive(Clone, Copy, Debug, PartialEq, Eq, Structural)]
pub struct HostTransport {
    /// Whether the tempo is valid.
    pub has_tempo: bool,
    /// The tempo in beats per minute.
    pub tempo: Binary64,
    /// Whether the position is valid.
    pub has_position: bool,
    /// The position in beats.
    pub position: Binary64,
    /// Whether the host plays.
    pub is_playing: bool,
}

/// What a host says of its transport, without what it does not vouch for.
pub open spec fn spec_transport_from_host(host: Option<HostTransport>) -> TransportInfo {
    match host {
        Some(host) => TransportInfo {
            tempo_bpm: if host.has_tempo {
                Some(host.tempo)
            } else {
                None
            },
            song_pos_beats: if host.has_position {
                Some(host.position)
            } else {
                None
            },
            is_playing: host.is_playing,
        },
        None => TransportInfo { tempo_bpm: None, song_pos_beats: None, is_playing: false },
    }
}

/// A fact is taken over exactly when the host vouches for it, and a host that
/// says nothing is stopped.
pub proof fn transports_invent_nothing(host: HostTransport)
    ensures
        ({
            let transport = spec_transport_from_host(Some(host));
            let silent = spec_transport_from_host(None);
            &&& transport.is_playing == host.is_playing
            &&& transport.tempo_bpm is Some <==> host.has_tempo
            &&& transport.song_pos_beats is Some <==> host.has_position
            &&& transport.tempo_bpm matches Some(tempo) ==> tempo == host.tempo
            &&& transport.song_pos_beats matches Some(position) ==> position == host.position
            &&& !silent.is_playing && silent.tempo_bpm is None && silent.song_pos_beats is None
        }),
{
}

/// Convert a host's transport without inventing missing facts.
#[verifier::when_used_as_spec(spec_transport_from_host)]
pub fn transport_from_host(host: Option<HostTransport>) -> (transport: TransportInfo)
    ensures
        transport == spec_transport_from_host(host),
{
    match host {
        Some(host) => TransportInfo {
            tempo_bpm: if host.has_tempo {
                Some(host.tempo)
            } else {
                None
            },
            song_pos_beats: if host.has_position {
                Some(host.position)
            } else {
                None
            },
            is_playing: host.is_playing,
        },
        None => TransportInfo::default(),
    }
}

/// Whether a host's sample rate can be processed at.
pub fn usable_sample_rate(sample_rate: Binary64) -> (usable: bool)
    ensures
        usable == (sample_rate.is_finite() && Binary64::zero().lt(sample_rate)),
{
    sample_rate.is_finite() && Binary64::zero().lt(sample_rate)
}

/// The samples that one channel has in common on both sides.
pub open spec fn spec_channel_frames(input: Option<usize>, output: Option<usize>) -> usize {
    match (input, output) {
        (Some(input), Some(output)) => if input < output {
            input
        } else {
            output
        },
        (Some(input), None) => input,
        (None, Some(output)) => output,
        (None, None) => 0,
    }
}

/// Return the number of samples that one channel has in common on both sides.
#[verifier::when_used_as_spec(spec_channel_frames)]
pub fn channel_frames(input: Option<usize>, output: Option<usize>) -> (frames: usize)
    ensures
        frames == spec_channel_frames(input, output),
{
    match (input, output) {
        (Some(input), Some(output)) => if input < output {
            input
        } else {
            output
        },
        (Some(input), None) => input,
        (None, Some(output)) => output,
        (None, None) => 0,
    }
}

/// One channel of a block.
pub struct Channel {
    /// The samples that come in.
    pub input: Option<Vec<Binary32>>,
    /// The samples that go out.
    pub output: Option<Vec<Binary32>>,
}

/// The samples of one channel of a block.
#[verifier::ext_equal]
pub struct ChannelSamples {
    /// The samples that come in.
    pub input: Option<Seq<Binary32>>,
    /// The samples that go out.
    pub output: Option<Seq<Binary32>>,
}

impl View for Channel {
    type V = ChannelSamples;

    open spec fn view(&self) -> ChannelSamples {
        ChannelSamples {
            input: match self.input {
                Some(input) => Some(input@),
                None => None,
            },
            output: match self.output {
                Some(output) => Some(output@),
                None => None,
            },
        }
    }
}

impl ChannelSamples {
    /// The samples that both sides have in common.
    pub open spec fn frames(self) -> nat {
        match (self.input, self.output) {
            (Some(input), Some(output)) => if input.len() < output.len() {
                input.len()
            } else {
                output.len()
            },
            (Some(input), None) => input.len(),
            (None, Some(output)) => output.len(),
            (None, None) => 0,
        }
    }

    /// The channel with its output silenced when nothing comes in.
    pub open spec fn silenced(self) -> ChannelSamples {
        match (self.input, self.output) {
            (None, Some(output)) => ChannelSamples {
                output: Some(Seq::new(output.len(), |at: int| Binary32::zero())),
                ..self
            },
            _ => self,
        }
    }

    /// The channel with its first samples passed through.
    pub open spec fn passed(self, frames: nat) -> ChannelSamples {
        match (self.input, self.output) {
            (Some(input), Some(output)) => ChannelSamples {
                output: Some(
                    Seq::new(
                        output.len(),
                        |at: int|
                            if at < frames {
                                input[at]
                            } else {
                                output[at]
                            },
                    ),
                ),
                ..self
            },
            _ => self,
        }
    }

    /// The first samples that are captured: those that come in, or else those
    /// that go out.
    pub open spec fn captured(self, frames: nat) -> Seq<Binary32> {
        match (self.input, self.output) {
            (Some(input), _) => input.take(frames as int),
            (None, Some(output)) => output.take(frames as int),
            (None, None) => seq![],
        }
    }
}

/// The samples that two channels have in common.
pub open spec fn pair_frames(left: ChannelSamples, right: ChannelSamples) -> nat {
    if left.frames() < right.frames() {
        left.frames()
    } else {
        right.frames()
    }
}

impl Channel {
    fn frames(&self) -> (frames: usize)
        ensures
            frames == self@.frames(),
    {
        let input: Option<usize> = match &self.input {
            Some(input) => Some(input.len()),
            None => None,
        };
        let output: Option<usize> = match &self.output {
            Some(output) => Some(output.len()),
            None => None,
        };
        channel_frames(input, output)
    }

    fn silence(&mut self)
        ensures
            final(self)@ == old(self)@.silenced(),
    {
        if self.input.is_some() {
            return;
        }
        if let Some(output) = &mut self.output {
            let ghost length = output@.len();
            let mut index: usize = 0;
            while index < output.len()
                invariant
                    index <= output@.len(),
                    output@.len() == length,
                    forall|done: int| 0 <= done < index ==> #[trigger] output@[done] == Binary32::zero(),
                decreases output@.len() - index,
            {
                output.set(index, Binary32::zero());
                index = index + 1;
            }
            assert(output@ =~= Seq::new(length, |at: int| Binary32::zero()));
        }
    }

    fn pass(&mut self, frames: usize)
        requires
            frames <= old(self)@.frames(),
        ensures
            final(self)@ == old(self)@.passed(frames as nat),
    {
        if let Some(input) = &self.input {
            if let Some(output) = &mut self.output {
                let ghost before = output@;
                let mut index: usize = 0;
                while index < frames
                    invariant
                        index <= frames,
                        frames <= input@.len(),
                        frames <= output@.len(),
                        output@.len() == before.len(),
                        forall|done: int| 0 <= done < index ==> #[trigger] output@[done] == input@[done],
                        forall|rest: int|
                            index <= rest < before.len() ==> #[trigger] output@[rest] == before[rest],
                    decreases frames - index,
                {
                    output.set(index, input[index]);
                    index = index + 1;
                }
                assert(output@ =~= Seq::new(
                    before.len(),
                    |at: int|
                        if at < frames {
                            input@[at]
                        } else {
                            before[at]
                        },
                ));
            }
        }
    }

    fn source(&self, frames: usize) -> (samples: &[Binary32])
        requires
            frames <= self@.frames(),
        ensures
            samples@ == self@.captured(frames as nat),
    {
        match (&self.input, &self.output) {
            (Some(input), _) => slice_subrange(input.as_slice(), 0, frames),
            (None, Some(output)) => slice_subrange(output.as_slice(), 0, frames),
            (None, None) => &[],
        }
    }
}

/// Pass a stereo block through and capture it. A channel that nothing comes in
/// on goes out silent, and a block without common samples is captured as an
/// empty one.
pub fn process_stereo_pair(
    engine: &mut CaptureEngine,
    left: &mut Channel,
    right: &mut Channel,
    transport: TransportInfo,
    publication: &mut WaveformPublication,
)
    requires
        old(publication).wf(),
        old(publication)@.idle(),
    ensures
        final(publication).wf(),
        ({
            let frames = pair_frames(old(left)@, old(right)@);
            let left_out = old(left)@.silenced().passed(frames);
            let right_out = old(right)@.silenced().passed(frames);
            let after = (Capture {
                engine: old(engine)@,
                publication: old(publication)@.stepped(),
            }).after_block(
                left_out.captured(frames),
                right_out.captured(frames),
                transport,
            );
            &&& final(left)@ == left_out
            &&& final(right)@ == right_out
            &&& final(engine)@ == after.engine
            &&& final(publication)@ == after.publication.stepped()
            &&& frames <= i64::MAX
                ==> final(publication).shows_writes_since(*old(publication))
        }),
{
    left.silence();
    right.silence();
    let left_frames: usize = left.frames();
    let right_frames: usize = right.frames();
    let frames: usize = if left_frames < right_frames {
        left_frames
    } else {
        right_frames
    };
    left.pass(frames);
    right.pass(frames);
    engine.process_block(left.source(frames), right.source(frames), transport, publication);
}

/// What comes in on a channel goes out unchanged, as far as both channels
/// reach, and is what is captured.
pub proof fn audio_passes_through_unchanged(channel: ChannelSamples, frames: nat)
    requires
        frames <= channel.frames(),
    ensures
        ({
            let after = channel.silenced().passed(frames);
            &&& after.input == channel.input
            &&& channel.input matches Some(input) ==> {
                &&& after.captured(frames) == input.take(frames as int)
                &&& after.output matches Some(output) ==> output.take(frames as int) == input.take(
                    frames as int,
                )
            }
            &&& channel.input is None ==> match after.output {
                Some(output) => forall|at: int|
                    0 <= at < output.len() ==> #[trigger] output[at] == Binary32::zero(),
                None => true,
            }
        }),
{
    let after = channel.silenced().passed(frames);
    if let Some(input) = channel.input {
        if let Some(output) = after.output {
            assert(output.take(frames as int) =~= input.take(frames as int));
        }
    }
}

/// Two channels are passed through as far as all of their sides reach, and no
/// less; a channel without any side has nothing to pass.
pub proof fn channels_reach_as_far_as_all_sides(left: ChannelSamples, right: ChannelSamples)
    ensures
        ({
            let frames = pair_frames(left, right);
            let longest = |side: Option<Seq<Binary32>>| side matches Some(samples) && frames
                == samples.len();
            &&& left.input matches Some(samples) ==> frames <= samples.len()
            &&& left.output matches Some(samples) ==> frames <= samples.len()
            &&& right.input matches Some(samples) ==> frames <= samples.len()
            &&& right.output matches Some(samples) ==> frames <= samples.len()
            &&& left.input is None && left.output is None || right.input is None
                && right.output is None ==> frames == 0
            &&& frames == 0 || longest(left.input) || longest(left.output) || longest(right.input)
                || longest(right.output)
        }),
{
}

/// What goes out beyond the samples that are passed through stays as it was,
/// and what comes in is never written to.
pub proof fn samples_beyond_the_block_stay(channel: ChannelSamples, frames: nat, at: int)
    requires
        frames <= at,
    ensures
        ({
            let after = channel.silenced().passed(frames);
            &&& after.input == channel.input
            &&& channel.input is Some ==> {
                &&& channel.output is Some && at < channel.output->0.len() ==> {
                    &&& after.output is Some
                    &&& after.output->0.len() == channel.output->0.len()
                    &&& after.output->0[at] == channel.output->0[at]
                }
                &&& channel.output is None ==> after.output is None
            }
        }),
{
}

} // verus!
