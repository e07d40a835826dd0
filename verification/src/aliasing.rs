//! Address checks on the buffers of one stereo process block.
//!
//! A host hands over addresses. They are judged here as plain numbers before
//! anything behind them is read or written.

use vstd::prelude::*;

verus! {

/// The size and alignment of one sample in bytes.
pub const SAMPLE_BYTES: usize = 4;

/// The size and alignment of a type in memory.
#[derive(Clone, Copy, Debug, PartialEq, Eq, Structural)]
pub struct Layout {
    /// The size in bytes.
    pub size: usize,
    /// The alignment in bytes.
    pub alignment: usize,
}

impl Layout {
    /// Alignments are positive.
    pub open spec fn wf(self) -> bool {
        self.alignment > 0
    }
}

/// The addresses of `count` values from an address on, end excluded, when the
/// address is set and aligned and the last byte has an address.
pub open spec fn spec_address_range(address: usize, layout: Layout, count: usize) -> Option<
    (usize, usize),
> {
    let end = address + count * layout.size;
    if address != 0 && address % layout.alignment == 0 && end <= usize::MAX {
        Some((address, end as usize))
    } else {
        None
    }
}

/// Return the addresses of `count` values from an address on.
#[verifier::when_used_as_spec(spec_address_range)]
pub fn address_range(address: usize, layout: Layout, count: usize) -> (range: Option<
    (usize, usize),
>)
    requires
        layout.wf(),
    ensures
        range == spec_address_range(address, layout, count),
{
    if address == 0 || address % layout.alignment != 0 {
        return None;
    }
    match count.checked_mul(layout.size) {
        Some(bytes) => match address.checked_add(bytes) {
            Some(end) => Some((address, end)),
            None => None,
        },
        None => None,
    }
}

/// Each range starts before the other one ends.
pub open spec fn spec_ranges_overlap(first: (usize, usize), second: (usize, usize)) -> bool {
    first.0 < second.1 && second.0 < first.1
}

/// Whether two address ranges overlap.
#[verifier::when_used_as_spec(spec_ranges_overlap)]
pub fn ranges_overlap(first: (usize, usize), second: (usize, usize)) -> (overlap: bool)
    ensures
        overlap == spec_ranges_overlap(first, second),
{
    first.0 < second.1 && second.0 < first.1
}

/// An address lies in a range.
pub open spec fn holds(range: (usize, usize), address: int) -> bool {
    range.0 <= address < range.1
}

/// Two ranges that are not empty overlap exactly when some address lies in
/// both.
pub proof fn overlap_means_shared_address(first: (usize, usize), second: (usize, usize))
    requires
        first.0 < first.1,
        second.0 < second.1,
    ensures
        ranges_overlap(first, second) <==> exists|address: int|
            holds(first, address) && holds(second, address),
{
    if ranges_overlap(first, second) {
        let address = if first.0 < second.0 {
            second.0 as int
        } else {
            first.0 as int
        };
        assert(holds(first, address) && holds(second, address));
    }
}

/// The layout of one sample.
pub open spec fn spec_sample_layout() -> Layout {
    Layout { size: 4, alignment: 4 }
}

/// The layout of one sample.
#[verifier::when_used_as_spec(spec_sample_layout)]
pub fn sample_layout() -> (layout: Layout)
    ensures
        layout == spec_sample_layout(),
        layout.wf(),
{
    Layout { size: SAMPLE_BYTES, alignment: SAMPLE_BYTES }
}

/// The four channel addresses of a stereo block.
#[derive(Clone, Copy, Debug, PartialEq, Eq, Structural)]
pub struct StereoAddresses {
    /// The left input.
    pub input_left: usize,
    /// The right input.
    pub input_right: usize,
    /// The left output.
    pub output_left: usize,
    /// The right output.
    pub output_right: usize,
}

/// Two ranges are the same or have nothing in common.
pub open spec fn same_or_apart(first: (usize, usize), second: (usize, usize)) -> bool {
    first.0 == second.0 || !ranges_overlap(first, second)
}

impl StereoAddresses {
    /// Every channel can be addressed, the two channels of either side are
    /// apart, no output touches the input of the other channel, and an output
    /// is its own input or apart from it.
    pub open spec fn spec_usable(self, frames: usize) -> bool {
        match (
            address_range(self.input_left, sample_layout(), frames),
            address_range(self.input_right, sample_layout(), frames),
            address_range(self.output_left, sample_layout(), frames),
            address_range(self.output_right, sample_layout(), frames),
        ) {
            (Some(input_left), Some(input_right), Some(output_left), Some(output_right)) => {
                &&& !ranges_overlap(input_left, input_right)
                &&& !ranges_overlap(output_left, output_right)
                &&& !ranges_overlap(output_left, input_right)
                &&& !ranges_overlap(output_right, input_left)
                &&& same_or_apart(output_left, input_left)
                &&& same_or_apart(output_right, input_right)
            },
            _ => false,
        }
    }
}

/// Whether the channels of a block may be passed through.
pub fn validate_stereo_aliases(
    input_left: usize,
    input_right: usize,
    output_left: usize,
    output_right: usize,
    frames: usize,
) -> (usable: bool)
    ensures
        usable == (StereoAddresses {
            input_left,
            input_right,
            output_left,
            output_right,
        }).spec_usable(frames),
{
    let input_left_range: (usize, usize) = match address_range(
        input_left,
        sample_layout(),
        frames,
    ) {
        Some(range) => range,
        None => return false,
    };
    let input_right_range: (usize, usize) = match address_range(
        input_right,
        sample_layout(),
        frames,
    ) {
        Some(range) => range,
        None => return false,
    };
    let output_left_range: (usize, usize) = match address_range(
        output_left,
        sample_layout(),
        frames,
    ) {
        Some(range) => range,
        None => return false,
    };
    let output_right_range: (usize, usize) = match address_range(
        output_right,
        sample_layout(),
        frames,
    ) {
        Some(range) => range,
        None => return false,
    };
    if ranges_overlap(input_left_range, input_right_range) || ranges_overlap(
        output_left_range,
        output_right_range,
    ) || ranges_overlap(output_left_range, input_right_range) || ranges_overlap(
        output_right_range,
        input_left_range,
    ) {
        return false;
    }
    let left_overlap: bool = ranges_overlap(output_left_range, input_left_range);
    let right_overlap: bool = ranges_overlap(output_right_range, input_right_range);
    (!left_overlap || output_left == input_left) && (!right_overlap || output_right == input_right)
}

/// Processing in place is accepted: outputs that are exactly their inputs are
/// usable whenever the two channels can be addressed and are apart.
pub proof fn in_place_is_usable(left: usize, right: usize, frames: usize)
    requires
        address_range(left, sample_layout(), frames) matches Some(left_range)
            && address_range(right, sample_layout(), frames) matches Some(right_range)
            && !ranges_overlap(left_range, right_range),
    ensures
        (StereoAddresses {
            input_left: left,
            input_right: right,
            output_left: left,
            output_right: right,
        }).spec_usable(frames),
{
}

/// Writing a usable block cannot change what is still to be read: no byte of
/// an output is a byte of the other channel's input, and a byte of the own
/// input only at the same distance from the start.
pub proof fn usable_blocks_do_not_interfere(
    addresses: StereoAddresses,
    frames: usize,
    written: int,
    read: int,
)
    requires
        addresses.spec_usable(frames),
        0 <= written < frames * SAMPLE_BYTES,
        0 <= read < frames * SAMPLE_BYTES,
    ensures
        addresses.output_left + written != addresses.input_right + read,
        addresses.output_right + written != addresses.input_left + read,
        addresses.output_left + written != addresses.output_right + read,
        addresses.output_left + written == addresses.input_left + read ==> written == read,
        addresses.output_right + written == addresses.input_right + read ==> written == read,
{
}

/// The bus descriptors of a process call.
#[derive(Clone, Copy, Debug, PartialEq, Eq, Structural)]
pub struct BusPointers {
    /// How many input buses there are.
    pub num_inputs: i32,
    /// How many output buses there are.
    pub num_outputs: i32,
    /// The address of the input buses.
    pub inputs: usize,
    /// The address of the output buses.
    pub outputs: usize,
}

impl BusPointers {
    /// There is exactly one bus on either side and it can be read.
    pub open spec fn spec_readable(self, bus: Layout) -> bool {
        &&& self.num_inputs == 1
        &&& self.num_outputs == 1
        &&& address_range(self.inputs, bus, 1) is Some
        &&& address_range(self.outputs, bus, 1) is Some
    }

    /// Whether there is exactly one bus on either side that can be read.
    #[verifier::when_used_as_spec(spec_readable)]
    pub fn readable(self, bus: Layout) -> (readable: bool)
        requires
            bus.wf(),
        ensures
            readable == self.spec_readable(bus),
    {
        self.num_inputs == 1 && self.num_outputs == 1 && address_range(
            self.inputs,
            bus,
            1,
        ).is_some() && address_range(self.outputs, bus, 1).is_some()
    }

    /// There is exactly one output bus and it can be written.
    pub open spec fn spec_output_writable(self, bus: Layout) -> bool {
        self.num_outputs == 1 && address_range(self.outputs, bus, 1) is Some
    }

    /// Whether there is exactly one output bus that can be written.
    #[verifier::when_used_as_spec(spec_output_writable)]
    pub fn output_writable(self, bus: Layout) -> (writable: bool)
        requires
            bus.wf(),
        ensures
            writable == self.spec_output_writable(bus),
    {
        self.num_outputs == 1 && address_range(self.outputs, bus, 1).is_some()
    }
}

/// A bus as its descriptor says.
#[derive(Clone, Copy, Debug, PartialEq, Eq, Structural)]
pub struct BusShape {
    /// How many channels it has.
    pub num_channels: i32,
    /// The address of the channel addresses.
    pub channels: usize,
}

impl BusShape {
    /// The bus is stereo and its channel addresses can be read.
    pub open spec fn spec_stereo(self, pointer: Layout) -> bool {
        self.num_channels == 2 && address_range(self.channels, pointer, 2) is Some
    }

    /// Whether the bus is stereo and its channel addresses can be read.
    #[verifier::when_used_as_spec(spec_stereo)]
    pub fn stereo(self, pointer: Layout) -> (stereo: bool)
        requires
            pointer.wf(),
        ensures
            stereo == self.spec_stereo(pointer),
    {
        self.num_channels == 2 && address_range(self.channels, pointer, 2).is_some()
    }
}

/// A validated stereo block.
#[derive(Clone, Copy, Debug, PartialEq, Eq, Structural)]
pub struct StereoBuffers {
    /// The number of samples in every channel.
    pub frames: usize,
    /// The channels.
    pub addresses: StereoAddresses,
    /// Which input channels the host says are silent.
    pub input_silence_flags: u64,
}

/// The block that channel addresses and a sample count describe.
pub open spec fn spec_stereo_buffers(
    addresses: StereoAddresses,
    num_samples: i32,
    input_silence_flags: u64,
) -> Option<StereoBuffers> {
    if num_samples >= 0 && addresses.spec_usable(num_samples as usize) {
        Some(StereoBuffers { frames: num_samples as usize, addresses, input_silence_flags })
    } else {
        None
    }
}

/// Validate the channel addresses of a block.
#[verifier::when_used_as_spec(spec_stereo_buffers)]
pub fn stereo_buffers(addresses: StereoAddresses, num_samples: i32, input_silence_flags: u64) -> (buffers:
    Option<StereoBuffers>)
    ensures
        buffers == spec_stereo_buffers(addresses, num_samples, input_silence_flags),
{
    if num_samples < 0 {
        return None;
    }
    let frames: usize = num_samples as usize;
    if validate_stereo_aliases(
        addresses.input_left,
        addresses.input_right,
        addresses.output_left,
        addresses.output_right,
        frames,
    ) {
        Some(StereoBuffers { frames, addresses, input_silence_flags })
    } else {
        None
    }
}

/// Everything that a process call says of its buffers.
#[derive(Clone, Copy, Debug, PartialEq, Eq, Structural)]
pub struct ProcessShape {
    /// The bus descriptors.
    pub buses: BusPointers,
    /// The input bus.
    pub input: BusShape,
    /// The output bus.
    pub output: BusShape,
    /// The channels.
    pub addresses: StereoAddresses,
    /// The number of samples.
    pub num_samples: i32,
    /// Which input channels the host says are silent.
    pub input_silence_flags: u64,
}

impl ProcessShape {
    /// The block, when every descriptor on the way to it holds.
    pub open spec fn buffers(self, bus: Layout, pointer: Layout) -> Option<StereoBuffers> {
        if self.buses.readable(bus) && self.input.stereo(pointer) && self.output.stereo(pointer) {
            stereo_buffers(self.addresses, self.num_samples, self.input_silence_flags)
        } else {
            None
        }
    }
}

/// Read exactly one stereo input and output bus after validating every
/// address.
pub fn raw_stereo_buffers(data: &ProcessShape, bus: Layout, pointer: Layout) -> (buffers: Option<
    StereoBuffers,
>)
    requires
        bus.wf(),
        pointer.wf(),
    ensures
        buffers == data.buffers(bus, pointer),
{
    if !data.buses.readable(bus) {
        return None;
    }
    if !data.input.stereo(pointer) || !data.output.stereo(pointer) {
        return None;
    }
    stereo_buffers(data.addresses, data.num_samples, data.input_silence_flags)
}

/// Two output channels can be written without touching each other.
pub open spec fn spec_silenceable(left: usize, right: usize, frames: usize) -> bool {
    match (
        address_range(left, sample_layout(), frames),
        address_range(right, sample_layout(), frames),
    ) {
        (Some(left_range), Some(right_range)) => !ranges_overlap(left_range, right_range),
        _ => false,
    }
}

/// Whether two output channels can be silenced.
#[verifier::when_used_as_spec(spec_silenceable)]
pub fn silenceable(left: usize, right: usize, frames: usize) -> (usable: bool)
    ensures
        usable == spec_silenceable(left, right, frames),
{
    match (
        address_range(left, sample_layout(), frames),
        address_range(right, sample_layout(), frames),
    ) {
        (Some(left_range), Some(right_range)) => !ranges_overlap(left_range, right_range),
        _ => false,
    }
}

/// Return how many samples of either output channel to silence when a block is
/// refused; none unless the output itself is structurally valid.
pub fn silence_valid_stereo_output(
    data: &ProcessShape,
    single_precision: bool,
    bus: Layout,
    pointer: Layout,
) -> (frames: Option<usize>)
    requires
        bus.wf(),
        pointer.wf(),
    ensures
        frames == if single_precision && data.num_samples >= 0 && data.buses.output_writable(bus)
            && data.output.stereo(pointer) && silenceable(
            data.addresses.output_left,
            data.addresses.output_right,
            data.num_samples as usize,
        ) {
            Some(data.num_samples as usize)
        } else {
            None
        },
{
    if !single_precision || data.num_samples < 0 || !data.buses.output_writable(bus) {
        return None;
    }
    let frames: usize = data.num_samples as usize;
    if data.output.stereo(pointer) && silenceable(
        data.addresses.output_left,
        data.addresses.output_right,
        frames,
    ) {
        Some(frames)
    } else {
        None
    }
}

impl StereoBuffers {
    /// Return which channels have to be copied; a channel in place is left
    /// alone.
    pub fn copies(&self) -> (copies: (bool, bool))
        ensures
            copies.0 == (self.addresses.input_left != self.addresses.output_left),
            copies.1 == (self.addresses.input_right != self.addresses.output_right),
    {
        (
            self.addresses.input_left != self.addresses.output_left,
            self.addresses.input_right != self.addresses.output_right,
        )
    }
}

/// What a process call may do before its buffers are looked at.
#[derive(Clone, Copy, Debug, PartialEq, Eq, Structural)]
pub enum Admission {
    /// Refuse the call.
    Reject,
    /// There is nothing to do.
    Nothing,
    /// Silence the output and refuse the call.
    Silence,
    /// Process this many samples.
    Run(usize),
}

/// How a process call is admitted.
pub open spec fn spec_call_admission(num_samples: i32, runtime_free: bool) -> Admission {
    if num_samples < 0 {
        Admission::Reject
    } else if runtime_free {
        Admission::Run(num_samples as usize)
    } else if num_samples == 0 {
        Admission::Nothing
    } else {
        Admission::Silence
    }
}

/// A call runs exactly when the runtime is free and its number of samples is not
/// negative, and with that number; a call that cannot run is refused or, where
/// samples are due, silenced.
pub proof fn calls_run_while_the_runtime_is_free(num_samples: i32, runtime_free: bool)
    ensures
        ({
            let admission = spec_call_admission(num_samples, runtime_free);
            &&& admission is Run <==> runtime_free && num_samples >= 0
            &&& admission matches Admission::Run(frames) ==> frames == num_samples
            &&& admission is Reject <==> num_samples < 0
            &&& admission is Silence <==> !runtime_free && num_samples > 0
        }),
{
}

/// Admit a process call. A block that the runtime is not free for is silenced.
#[verifier::when_used_as_spec(spec_call_admission)]
pub fn call_admission(num_samples: i32, runtime_free: bool) -> (admission: Admission)
    ensures
        admission == spec_call_admission(num_samples, runtime_free),
{
    if num_samples < 0 {
        return Admission::Reject;
    }
    if runtime_free {
        Admission::Run(num_samples as usize)
    } else if num_samples == 0 {
        Admission::Nothing
    } else {
        Admission::Silence
    }
}

/// What an admitted process call does with its buffers.
#[derive(Clone, Copy, Debug, PartialEq, Eq, Structural)]
pub enum BlockAction {
    /// Capture an empty block.
    CaptureNothing,
    /// Silence the output and refuse the call.
    Silence,
    /// Pass the block through and capture it.
    PassThrough(StereoBuffers),
}

/// What an admitted process call does with its buffers.
pub open spec fn spec_block_action(
    frames: usize,
    single_precision: bool,
    buffers: Option<StereoBuffers>,
) -> BlockAction {
    if frames == 0 {
        BlockAction::CaptureNothing
    } else {
        match buffers {
            Some(buffers) if single_precision => BlockAction::PassThrough(buffers),
            _ => BlockAction::Silence,
        }
    }
}

/// Audio passes through exactly when there are single-precision samples in
/// usable buffers, and through those; otherwise samples that are due are
/// silenced.
pub proof fn usable_audio_passes_through(
    frames: usize,
    single_precision: bool,
    buffers: Option<StereoBuffers>,
)
    ensures
        ({
            let action = spec_block_action(frames, single_precision, buffers);
            &&& action is PassThrough <==> frames > 0 && single_precision && buffers is Some
            &&& action matches BlockAction::PassThrough(used) ==> buffers == Some(used)
            &&& action is CaptureNothing <==> frames == 0
        }),
{
}

/// Decide what an admitted process call does with its buffers.
#[verifier::when_used_as_spec(spec_block_action)]
pub fn block_action(frames: usize, single_precision: bool, buffers: Option<StereoBuffers>) -> (action:
    BlockAction)
    ensures
        action == spec_block_action(frames, single_precision, buffers),
{
    if frames == 0 {
        return BlockAction::CaptureNothing;
    }
    match buffers {
        Some(buffers) => {
            if single_precision {
                BlockAction::PassThrough(buffers)
            } else {
                BlockAction::Silence
            }
        },
        None => BlockAction::Silence,
    }
}

/// So many samples can be addressed from here: the address is set, whole samples
/// apart from zero, and the last byte has an address.
pub open spec fn addressable(address: usize, frames: usize) -> bool {
    address != 0 && address % 4 == 0 && address + 4 * frames <= usize::MAX
}

/// Two channels lie a whole block apart.
pub open spec fn a_block_apart(one: usize, other: usize, frames: usize) -> bool {
    one + 4 * frames <= other || other + 4 * frames <= one
}

/// A block is usable exactly when all four channels can be addressed, both
/// inputs, both outputs and either output and the other input lie a block apart,
/// and an output is its own input or lies a block apart from it.
pub proof fn usable_blocks_lie_apart_or_in_place(addresses: StereoAddresses, frames: usize)
    requires
        frames > 0,
    ensures
        addresses.spec_usable(frames) <==> {
            &&& addressable(addresses.input_left, frames)
            &&& addressable(addresses.input_right, frames)
            &&& addressable(addresses.output_left, frames)
            &&& addressable(addresses.output_right, frames)
            &&& a_block_apart(addresses.input_left, addresses.input_right, frames)
            &&& a_block_apart(addresses.output_left, addresses.output_right, frames)
            &&& a_block_apart(addresses.output_left, addresses.input_right, frames)
            &&& a_block_apart(addresses.output_right, addresses.input_left, frames)
            &&& addresses.output_left == addresses.input_left || a_block_apart(
                addresses.output_left,
                addresses.input_left,
                frames,
            )
            &&& addresses.output_right == addresses.input_right || a_block_apart(
                addresses.output_right,
                addresses.input_right,
                frames,
            )
        },
        forall|left: usize, right: usize| #[trigger]
            silenceable(left, right, frames) <==> addressable(left, frames) && addressable(
                right,
                frames,
            ) && a_block_apart(left, right, frames),
{
    let layout = sample_layout();
    assert(frames * layout.size == 4 * frames) by (nonlinear_arith)
        requires
            layout.size == 4,
    ;
    assert forall|address: usize| #[trigger]
        address_range(address, layout, frames) == if addressable(address, frames) {
            Some((address, (address + 4 * frames) as usize))
        } else {
            None
        } by {
        assert(layout.alignment == 4);
    }
}

/// A process call has a block exactly when it has one readable bus with two
/// channels on either side, no negative number of samples and usable channels;
/// the block is told as the call has it.
pub proof fn calls_have_the_block_that_they_tell(data: ProcessShape, bus: Layout, pointer: Layout)
    ensures
        ({
            let readable = |address: usize, layout: Layout, count: int|
                address != 0 && address % layout.alignment == 0 && address + count * layout.size
                    <= usize::MAX;
            let holds = data.buses.num_inputs == 1 && data.buses.num_outputs == 1 && readable(
                data.buses.inputs,
                bus,
                1,
            ) && readable(data.buses.outputs, bus, 1) && data.input.num_channels == 2
                && data.output.num_channels == 2 && readable(data.input.channels, pointer, 2)
                && readable(data.output.channels, pointer, 2) && data.num_samples >= 0
                && data.addresses.spec_usable(data.num_samples as usize);
            match data.buffers(bus, pointer) {
                Some(buffers) => {
                    &&& holds
                    &&& buffers.frames == data.num_samples
                    &&& buffers.addresses == data.addresses
                    &&& buffers.input_silence_flags == data.input_silence_flags
                },
                None => !holds,
            }
        }),
{
}

} // verus!
