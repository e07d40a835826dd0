//! Tempo, musical position and the window lengths they imply.

use crate::binary::{Binary32, Binary64};
use crate::float::{Datum, Format};
use crate::window::WindowLength;
use vstd::arithmetic::div_mod::*;
use vstd::arithmetic::power2::*;
use vstd::prelude::*;

verus! {

/// Logical sample capacity covered by the largest valid synced window: eight
/// beats at the slowest tempo and the highest sample rate.
pub const MAX_CAPTURE_SAMPLES: usize = 4_608_000;

/// The bit pattern of the maximum capture duration reserved for the largest
/// valid synced window, 24 seconds.
pub const MAX_CAPTURE_SECONDS: u64 = 0x4038_0000_0000_0000;

/// The bit pattern of the maximum sample rate covered by the fixed capture
/// capacity, 192 kHz.
pub const MAX_CAPTURE_SAMPLE_RATE: u64 = 0x4107_7000_0000_0000;

/// The bit pattern of the slowest tempo accepted from a host, 20 BPM.
pub const MIN_TEMPO_BPM: u64 = 0x4034_0000_0000_0000;

/// The bit pattern of the fastest tempo accepted from a host, 300 BPM.
pub const MAX_TEMPO_BPM: u64 = 0x4072_c000_0000_0000;

/// The bit pattern of the sample rate assumed until a host sets one, 48 kHz.
pub const DEFAULT_SAMPLE_RATE: u64 = 0x40e7_7000_0000_0000;

/// The bit pattern of the fallback rolling-window duration, half a second.
pub const FALLBACK_WINDOW_SECONDS: u64 = 0x3fe0_0000_0000_0000;

/// The bit pattern of sixty: seconds in a minute, live previews in a second.
pub const SIXTY: u64 = 0x404e_0000_0000_0000;

/// The bit pattern of the position tolerance, one and a half samples.
pub const POSITION_TOLERANCE_SAMPLES: u64 = 0x3ff8_0000_0000_0000;

/// The bit pattern of the distance from one to the next double.
pub const EPSILON: u64 = 0x3cb0_0000_0000_0000;

/// The bit pattern of the largest phase shown, 0.999999.
pub const PHASE_LIMIT: u64 = 0x3fef_fffd_e721_0be9;

/// A transport snapshot supplied to the format-neutral capture engine. `==`
/// compares the numbers.
#[derive(Clone, Copy, Debug)]
pub struct TransportInfo {
    /// Host tempo in beats per minute, when valid and supplied.
    pub tempo_bpm: Option<Binary64>,
    /// Host project position in quarter-note beats, when supplied.
    pub song_pos_beats: Option<Binary64>,
    /// Whether the host reports active playback.
    pub is_playing: bool,
}

impl PartialEq for TransportInfo {
    fn eq(&self, other: &TransportInfo) -> (same: bool) {
        Binary64::same(self.tempo_bpm, other.tempo_bpm) && Binary64::same(
            self.song_pos_beats,
            other.song_pos_beats,
        ) && self.is_playing == other.is_playing
    }
}

impl vstd::std_specs::cmp::PartialEqSpecImpl for TransportInfo {
    open spec fn obeys_eq_spec() -> bool {
        true
    }

    open spec fn eq_spec(&self, other: &TransportInfo) -> bool {
        &&& Binary64::same(self.tempo_bpm, other.tempo_bpm)
        &&& Binary64::same(self.song_pos_beats, other.song_pos_beats)
        &&& self.is_playing == other.is_playing
    }
}

impl Default for TransportInfo {
    fn default() -> (transport: TransportInfo)
        ensures
            transport == (TransportInfo {
                tempo_bpm: None,
                song_pos_beats: None,
                is_playing: false,
            }),
    {
        TransportInfo { tempo_bpm: None, song_pos_beats: None, is_playing: false }
    }
}

impl TransportInfo {
    /// The transport with an unusable tempo or position left out.
    pub open spec fn validated(self) -> TransportInfo {
        TransportInfo {
            tempo_bpm: valid_tempo(self.tempo_bpm),
            song_pos_beats: valid_position(self.song_pos_beats),
            is_playing: self.is_playing,
        }
    }
}

/// Whether a tempo is within the bounded capture range.
pub open spec fn tempo_in_range(tempo: Binary64) -> bool {
    Binary64::from_bits(MIN_TEMPO_BPM).le(tempo) && tempo.le(Binary64::from_bits(MAX_TEMPO_BPM))
}

/// The tempo when it is within the bounded capture range.
pub open spec fn spec_valid_tempo(tempo_bpm: Option<Binary64>) -> Option<Binary64> {
    match tempo_bpm {
        Some(tempo) if tempo_in_range(tempo) => Some(tempo),
        _ => None,
    }
}

/// Return a host tempo only when it is finite and inside the bounded capture
/// range.
#[verifier::when_used_as_spec(spec_valid_tempo)]
pub fn valid_tempo(tempo_bpm: Option<Binary64>) -> (result: Option<Binary64>)
    ensures
        result == spec_valid_tempo(tempo_bpm),
        result matches Some(tempo) ==> tempo.is_finite(),
{
    match tempo_bpm {
        Some(tempo) => {
            if Binary64::from_bits(MIN_TEMPO_BPM).le(tempo) && tempo.le(
                Binary64::from_bits(MAX_TEMPO_BPM),
            ) {
                Some(tempo)
            } else {
                None
            }
        },
        None => None,
    }
}

/// The position when it is finite.
pub open spec fn spec_valid_position(position: Option<Binary64>) -> Option<Binary64> {
    match position {
        Some(beats) if beats.is_finite() => Some(beats),
        _ => None,
    }
}

/// What one exact binary constant is in both precisions.
proof fn lemma_constant(digits: nat, double: nat, double_field: nat, single: nat, single_field: nat)
    requires
        double == double_field * 0x10_0000_0000_0000 + (digits - 0x10_0000_0000_0000),
        0x10_0000_0000_0000 <= digits < 0x20_0000_0000_0000,
        digits % 0x2000_0000 == 0,
        single == single_field * 0x80_0000 + (digits / 0x2000_0000 - 0x80_0000),
        double_field == single_field + 896,
        single_field >= 2,
    ensures
        crate::rounding::encoded_ratio(
            crate::rounding::decoded_steps(double, 53),
            pow2(925),
            24,
        ) == single,
{
    lemma2_to64();
    lemma2_to64_rest();
    let single_digits = digits / 0x2000_0000;
    let single_steps = crate::rounding::decoded_steps(single, 24);
    let double_steps = crate::rounding::decoded_steps(double, 53);
    let single_power = (single_field - 1) as nat;
    let double_power = (double_field - 1) as nat;
    assert((53 - 1) as nat == 52);
    assert((24 - 1) as nat == 23);
    assert(0x80_0000 <= single_digits < 0x100_0000);
    assert(double / 0x10_0000_0000_0000 == double_field);
    assert(single / 0x80_0000 == single_field);
    assert(double_steps == digits * pow2(double_power));
    assert(single_steps == single_digits * pow2(single_power));
    lemma_pow2_adds(29, double_power);
    lemma_pow2_adds(925, single_power);
    lemma_pow2_pos(925);
    assert(double_steps == single_steps * pow2(925)) by (nonlinear_arith)
        requires
            double_steps == digits * pow2(double_power),
            single_steps == single_digits * pow2(single_power),
            digits == single_digits * pow2(29),
            pow2(29) * pow2(double_power) == pow2(925) * pow2(single_power),
    ;
    assert(double_steps * 1 == single_steps * pow2(925));
    crate::rounding::encoding_preserves_order(double_steps, pow2(925), single_steps, 1, 24);
    crate::rounding::encoding_preserves_order(single_steps, 1, double_steps, pow2(925), 24);
    crate::rounding::decoding_round_trips(single, 24);
}

/// A tempo within the capture range stays within it in single precision.
pub proof fn single_tempo_stays_in_range(tempo: Binary64)
    requires
        tempo_in_range(tempo),
    ensures
        tempo.to_single().is_finite(),
        Binary32::from_bits(0x41a0_0000).le(tempo.to_single()),
        tempo.to_single().le(Binary32::from_bits(0x4396_0000)),
{
    reveal(Binary64::spec_to_single);
    let low: nat = 0x4034_0000_0000_0000;
    let high: nat = 0x4072_c000_0000_0000;
    let magnitude = tempo.datum().magnitude as nat;
    lemma_constant(0x14_0000_0000_0000, low, 0x403, 0x41a0_0000, 0x83);
    lemma_constant(0x12_c000_0000_0000, high, 0x407, 0x4396_0000, 0x87);
    lemma_pow2_pos(925);
    let steps = crate::rounding::decoded_steps(magnitude, 53);
    if low < magnitude {
        crate::rounding::decoding_preserves_order(low, magnitude, 53);
    }
    if magnitude < high {
        crate::rounding::decoding_preserves_order(magnitude, high, 53);
    }
    let low_steps = crate::rounding::decoded_steps(low, 53);
    let high_steps = crate::rounding::decoded_steps(high, 53);
    assert(low_steps * pow2(925) <= steps * pow2(925)) by (nonlinear_arith)
        requires
            low_steps <= steps,
    ;
    assert(steps * pow2(925) <= high_steps * pow2(925)) by (nonlinear_arith)
        requires
            steps <= high_steps,
    ;
    crate::rounding::encoding_preserves_order(low_steps, pow2(925), steps, pow2(925), 24);
    crate::rounding::encoding_preserves_order(steps, pow2(925), high_steps, pow2(925), 24);
}

/// Return a host position only when it is finite.
#[verifier::when_used_as_spec(spec_valid_position)]
pub fn valid_position(position: Option<Binary64>) -> (result: Option<Binary64>)
    ensures
        result == spec_valid_position(position),
{
    match position {
        Some(beats) => {
            if beats.is_finite() {
                Some(beats)
            } else {
                None
            }
        },
        None => None,
    }
}

/// The number of whole samples that covers a duration, when the duration is
/// positive and finite and the capacity holds that many.
pub open spec fn fitting_samples(samples: Binary64, capacity: usize) -> Option<usize> {
    if samples.is_finite() && Binary64::zero().lt(samples) && samples.whole_cover() <= capacity {
        Some(samples.whole_cover() as usize)
    } else {
        None
    }
}

/// A duration that fits has at least one sample.
pub(crate) proof fn lemma_fitting_samples(samples: Binary64, capacity: usize)
    ensures
        fitting_samples(samples, capacity) matches Some(count) ==> 1 <= count <= capacity,
{
    if samples.is_finite() && Binary64::zero().lt(samples) {
        let magnitude = samples.datum().magnitude as nat;
        let value = samples.datum().value(Format::Binary64);
        let one = Format::Binary64.one() as int;
        lemma_pow2_pos(1074);
        lemma_pow2_pos(52);
        assert((53 - 1) as nat == 52);
        crate::rounding::decoding_preserves_order(0, magnitude, 53);
        assert(value > 0);
        lemma_fundamental_div_mod(-value, one);
        lemma_mod_bound(-value, one);
        assert(-value / one < 0) by (nonlinear_arith)
            requires
                -value == one * (-value / one) + (-value) % one,
                (-value) % one >= 0,
                value > 0,
                one > 0,
        ;
    }
}

/// Bound a duration in samples by the capture capacity.
#[verifier::when_used_as_spec(fitting_samples)]
pub fn checked_capacity_samples(samples: Binary64, capacity: usize) -> (result: Option<usize>)
    ensures
        result == fitting_samples(samples, capacity),
        result matches Some(count) ==> 1 <= count <= capacity,
{
    if !samples.is_finite() || !Binary64::zero().lt(samples) {
        return None;
    }
    samples.cover(capacity)
}

/// The duration of a beat window in samples, as the formats round it.
pub open spec fn window_duration(
    sample_rate: Binary64,
    tempo_bpm: Binary64,
    window: WindowLength,
) -> Binary64 {
    let beat = sample_rate.div(tempo_bpm).mul(Binary64::from_bits(SIXTY));
    if window == WindowLength::OneBeat {
        beat
    } else {
        beat.mul(Binary64::from_whole(window.beats() as u64))
    }
}

/// Whether a window length can be computed at all.
pub open spec fn window_computable(
    sample_rate: Binary64,
    tempo_bpm: Binary64,
    capacity: usize,
) -> bool {
    &&& sample_rate.is_finite()
    &&& Binary64::zero().lt(sample_rate)
    &&& tempo_in_range(tempo_bpm)
    &&& capacity > 0
}

/// The bounded duration in samples of a beat window.
pub open spec fn spec_window_samples(
    sample_rate: Binary64,
    tempo_bpm: Binary64,
    window: WindowLength,
    capacity: usize,
) -> Option<usize> {
    if window_computable(sample_rate, tempo_bpm, capacity) {
        fitting_samples(window_duration(sample_rate, tempo_bpm, window), capacity)
    } else {
        None
    }
}

/// Calculate a bounded duration in samples for a selectable beat window.
#[verifier::when_used_as_spec(spec_window_samples)]
pub fn window_samples(
    sample_rate: Binary64,
    tempo_bpm: Binary64,
    window: WindowLength,
    capacity: usize,
) -> (result: Option<usize>)
    ensures
        result == spec_window_samples(sample_rate, tempo_bpm, window, capacity),
        result matches Some(count) ==> 1 <= count <= capacity,
{
    if window == WindowLength::OneBeat {
        return quarter_window_samples(sample_rate, tempo_bpm, capacity);
    }
    if !sample_rate.is_finite() || !Binary64::zero().lt(sample_rate) || valid_tempo(
        Some(tempo_bpm),
    ).is_none() || capacity == 0 {
        return None;
    }
    let beats: Binary64 = Binary64::from_whole(window.beats() as u64);
    let samples: Binary64 = sample_rate.div(tempo_bpm).mul(Binary64::from_bits(SIXTY)).mul(beats);
    checked_capacity_samples(samples, capacity)
}

/// Calculate a one-beat duration in samples, bounded by the capture capacity.
pub fn quarter_window_samples(
    sample_rate: Binary64,
    tempo_bpm: Binary64,
    capacity: usize,
) -> (result: Option<usize>)
    ensures
        result == spec_window_samples(sample_rate, tempo_bpm, WindowLength::OneBeat, capacity),
        result matches Some(count) ==> 1 <= count <= capacity,
{
    if !sample_rate.is_finite() || !Binary64::zero().lt(sample_rate) || valid_tempo(
        Some(tempo_bpm),
    ).is_none() || capacity == 0 {
        return None;
    }
    checked_capacity_samples(
        sample_rate.div(tempo_bpm).mul(Binary64::from_bits(SIXTY)),
        capacity,
    )
}

/// The bounded 500 ms fallback window in samples: at least one sample, at most
/// the capacity.
pub open spec fn spec_fallback_window_samples(sample_rate: Binary64, capacity: usize) -> usize {
    if !sample_rate.is_finite() || !Binary64::zero().lt(sample_rate) || capacity == 0 {
        1
    } else {
        let samples = sample_rate.mul(Binary64::from_bits(FALLBACK_WINDOW_SECONDS)).ceil().max(
            Binary64::one(),
        );
        match fitting_samples(samples, capacity) {
            Some(count) => count,
            None => capacity,
        }
    }
}

/// Calculate the bounded 500 ms fallback window in samples.
#[verifier::when_used_as_spec(spec_fallback_window_samples)]
pub fn fallback_window_samples(sample_rate: Binary64, capacity: usize) -> (result: usize)
    ensures
        result == spec_fallback_window_samples(sample_rate, capacity),
        result >= 1,
        capacity > 0 ==> result <= capacity,
{
    if !sample_rate.is_finite() || !Binary64::zero().lt(sample_rate) || capacity == 0 {
        return 1;
    }
    let samples: Binary64 = sample_rate.mul(Binary64::from_bits(FALLBACK_WINDOW_SECONDS)).ceil()
        .max(Binary64::one());
    match checked_capacity_samples(samples, capacity) {
        Some(count) => count,
        None => capacity,
    }
}

/// A fallback window has at least one sample, and the capacity holds it.
pub proof fn fallbacks_have_samples(sample_rate: Binary64, capacity: usize)
    ensures
        fallback_window_samples(sample_rate, capacity) >= 1,
        capacity > 0 ==> fallback_window_samples(sample_rate, capacity) <= capacity,
{
    let samples = sample_rate.mul(Binary64::from_bits(FALLBACK_WINDOW_SECONDS)).ceil().max(
        Binary64::one(),
    );
    lemma_fitting_samples(samples, capacity);
}

/// The logical x coordinate of a quarter-note offset.
pub open spec fn spec_grid_x(beat_offset: Binary64, window_beats: Binary64, width: Binary32)
    -> Binary32 {
    if beat_offset.is_finite() && window_beats.is_finite() && Binary64::zero().lt(window_beats) {
        let span = width.max(Binary32::zero()).to_double();
        beat_offset.div(window_beats).mul(span).clamp(Binary64::zero(), span).to_single()
    } else {
        Binary32::zero()
    }
}

/// Map a quarter-note offset to a logical x coordinate.
#[verifier::when_used_as_spec(spec_grid_x)]
pub fn grid_x(beat_offset: Binary64, window_beats: Binary64, width: Binary32) -> (x: Binary32)
    ensures
        x == spec_grid_x(beat_offset, window_beats, width),
{
    if !beat_offset.is_finite() || !window_beats.is_finite() || !Binary64::zero().lt(
        window_beats,
    ) {
        return Binary32::zero();
    }
    let span: Binary64 = width.max(Binary32::zero()).to_double();
    beat_offset.div(window_beats).mul(span).clamp(Binary64::zero(), span).to_single()
}

/// Wherever a quarter-note offset has a share of the width, its coordinate
/// lies within the width.
pub proof fn grid_stays_within_the_width(
    beat_offset: Binary64,
    window_beats: Binary64,
    width: Binary32,
)
    requires
        !beat_offset.div(window_beats).mul(width.max(Binary32::zero()).to_double()).is_nan(),
    ensures
        Binary32::zero().le(grid_x(beat_offset, window_beats, width)),
        grid_x(beat_offset, window_beats, width).le(width.max(Binary32::zero())),
{
    let room = width.max(Binary32::zero());
    let span = room.to_double();
    if room.is_finite() {
        room.lemma_double_is_exact();
    } else {
        reveal(Binary32::spec_to_double);
    }
    let place = beat_offset.div(window_beats).mul(span).clamp(Binary64::zero(), span);
    room.widening_is_undone();
    Binary32::zero().lemma_double_is_exact();
    Binary32::zero().widening_is_undone();
    assert(Binary32::zero().to_double() == Binary64::zero());
    place.narrowing_preserves_order(span);
    Binary64::zero().narrowing_preserves_order(place);
}

/// The whole number of windows from project beat zero to a position.
pub open spec fn window_index(position: Binary64, window: WindowLength) -> int {
    position.div(Binary64::from_whole(window.beats() as u64)).whole_floor()
}

/// The aligned beat at the start of the window that a position lies in, when
/// the position is finite and a signed 64-bit integer can hold the beat.
pub open spec fn spec_aligned_window_start(position: Binary64, window: WindowLength)
    -> Option<i64> {
    let start = window_index(position, window) * window.beats();
    if position.is_finite() && i64::MIN <= start <= i64::MAX {
        Some(start as i64)
    } else {
        None
    }
}

/// A window's number of beats is held exactly.
proof fn lemma_width(window: WindowLength)
    ensures
        ({
            let width = Binary64::from_whole(window.beats() as u64).datum();
            &&& !width.negative
            &&& 0 < width.magnitude
            &&& width.finite(Format::Binary64)
            &&& width.steps(Format::Binary64) == window.beats() * Format::Binary64.one()
        }),
{
    reveal(Binary64::spec_from_whole);
    let beats = window.beats() as nat;
    let one = Format::Binary64.one();
    let magnitude: nat = match window {
        WindowLength::OneBeat => 0x3ff0_0000_0000_0000,
        WindowLength::TwoBeats => 0x4000_0000_0000_0000,
        WindowLength::FourBeats => 0x4010_0000_0000_0000,
        WindowLength::EightBeats => 0x4020_0000_0000_0000,
    };
    lemma2_to64();
    lemma2_to64_rest();
    let field = magnitude / 0x10_0000_0000_0000;
    let exponent = (field - 1023) as nat;
    lemma_pow2_adds(52, (field - 1) as nat);
    lemma_pow2_adds(1074, exponent);
    assert(magnitude % 0x10_0000_0000_0000 == 0);
    assert(pow2(52) == 0x10_0000_0000_0000);
    assert(pow2(exponent) == beats);
    assert(52 + (field - 1) as nat == 1074 + exponent);
    assert(pow2(1074) * pow2(exponent) == beats * one) by (nonlinear_arith)
        requires
            pow2(exponent) == beats,
            one == pow2(1074),
    ;
    assert((53 - 1) as nat == 52);
    assert(crate::rounding::decoded_steps(magnitude, 53) == pow2(52) * pow2((field - 1) as nat));
    crate::rounding::decoding_round_trips(magnitude, 53);
}

/// Return the aligned integer beat at the start of the current window.
#[verifier::when_used_as_spec(spec_aligned_window_start)]
pub fn aligned_window_start(position: Binary64, window: WindowLength) -> (start: Option<i64>)
    ensures
        start == spec_aligned_window_start(position, window),
{
    if !position.is_finite() {
        return None;
    }
    let width: Binary64 = Binary64::from_whole(window.beats() as u64);
    let quotient: Binary64 = position.div(width);
    let beats: i64 = window.beats() as i64;
    proof {
        reveal(Binary64::spec_div);
        lemma_width(window);
        let steps = position.datum().steps(Format::Binary64);
        let one = Format::Binary64.one();
        lemma_pow2_pos(1074);
        assert((steps * one) * 1 <= steps * (beats * one)) by (nonlinear_arith)
            requires
                beats >= 1,
                steps >= 0,
                one > 0,
        ;
        assert(beats * one > 0) by (nonlinear_arith)
            requires
                beats >= 1,
                one > 0,
        ;
        crate::rounding::encoding_preserves_order(steps * one, (beats * one) as nat, steps, 1, 53);
        crate::rounding::decoding_round_trips(position.datum().magnitude as nat, 53);
    }
    let ghost index = window_index(position, window);
    proof {
        assert(index > i64::MAX ==> index * beats > i64::MAX) by (nonlinear_arith)
            requires
                beats >= 1,
        ;
        assert(index < i64::MIN ==> index * beats < i64::MIN) by (nonlinear_arith)
            requires
                beats >= 1,
        ;
    }
    match quotient.floor_integer() {
        Some(floor) => {
            assert(floor == index);
            floor.checked_mul(beats)
        },
        None => None,
    }
}

/// Dividing by a power of two that divides exactly loses nothing.
proof fn lemma_exact_share(magnitude: nat, exponent: nat)
    requires
        crate::rounding::decoded_steps(magnitude, 53) % pow2(exponent) == 0,
    ensures
        ({
            let steps = crate::rounding::decoded_steps(magnitude, 53);
            let share = steps / pow2(exponent);
            let one = Format::Binary64.one();
            &&& steps == share * pow2(exponent)
            &&& crate::rounding::decoded_steps(
                crate::rounding::encoded_ratio(steps * one, pow2(exponent) * one, 53),
                53,
            ) == share
        }),
{
    let steps = crate::rounding::decoded_steps(magnitude, 53);
    let divisor = pow2(exponent);
    let share = steps / divisor;
    let one = Format::Binary64.one();
    lemma2_to64();
    lemma2_to64_rest();
    lemma_pow2_pos(exponent);
    lemma_pow2_pos(1074);
    lemma_fundamental_div_mod(steps as int, divisor as int);
    assert(steps == share * divisor) by (nonlinear_arith)
        requires
            steps == divisor * share + 0,
    ;
    let scaled = divisor * one;
    assert(scaled > 0) by (nonlinear_arith)
        requires
            scaled == divisor * one,
            divisor > 0,
            one > 0,
    ;
    assert((steps * one) * 1 == share * scaled) by (nonlinear_arith)
        requires
            steps == share * divisor,
            scaled == divisor * one,
    ;
    crate::rounding::encoding_preserves_order(steps * one, scaled, share, 1, 53);
    crate::rounding::encoding_preserves_order(share, 1, steps * one, scaled, 53);
    assert((53 - 1) as nat == 52);
    let lead: nat = 0x10_0000_0000_0000;
    let field = magnitude / lead;
    let digits = if field <= 1 {
        magnitude
    } else {
        magnitude % lead + lead
    };
    let power = if field <= 1 {
        0
    } else {
        (field - 1) as nat
    };
    assert(digits < 2 * lead);
    assert(digits * 1 == digits);
    assert(steps == digits * pow2(power));
    if power >= exponent {
        let rest = (power - exponent) as nat;
        lemma_pow2_adds(rest, exponent);
        assert(share == digits * pow2(rest)) by (nonlinear_arith)
            requires
                share * divisor == digits * pow2(power),
                pow2(power) == pow2(rest) * divisor,
                divisor > 0,
        ;
        crate::rounding::encoding_is_exact(digits, rest, 53);
    } else {
        let rest = (exponent - power) as nat;
        lemma_pow2_adds(rest, power);
        lemma_pow2_pos(rest);
        lemma_pow2_pos(power);
        assert(share <= digits) by (nonlinear_arith)
            requires
                share * divisor == digits * pow2(power),
                divisor == pow2(rest) * pow2(power),
                pow2(rest) >= 1,
                pow2(power) >= 1,
        ;
        crate::rounding::encoding_is_exact(share, 0, 53);
        assert(share * 1 == share);
    }
}

/// A finite number that an eighth of the smallest normal spacing cannot
/// divide lies far below one.
proof fn lemma_indivisible_is_tiny(magnitude: nat, exponent: nat)
    requires
        exponent <= 3,
        crate::rounding::decoded_steps(magnitude, 53) % pow2(exponent) != 0,
    ensures
        magnitude < 0x3ff0_0000_0000_0000,
        crate::rounding::decoded_steps(magnitude, 53) < Format::Binary64.one(),
{
    let steps = crate::rounding::decoded_steps(magnitude, 53);
    lemma2_to64();
    lemma2_to64_rest();
    assert((53 - 1) as nat == 52);
    let lead: nat = 0x10_0000_0000_0000;
    let field = magnitude / lead;
    if field > 3 {
        let digits = magnitude % lead + lead;
        let power = (field - 1) as nat;
        let rest = (power - exponent) as nat;
        lemma_pow2_adds(rest, exponent);
        lemma_pow2_pos(exponent);
        assert(steps == (digits * pow2(rest)) * pow2(exponent)) by (nonlinear_arith)
            requires
                steps == digits * pow2(power),
                pow2(power) == pow2(rest) * pow2(exponent),
        ;
        lemma_mod_multiples_basic((digits * pow2(rest)) as int, pow2(exponent) as int);
        assert(false);
    }
    assert(magnitude < 4 * lead);
    lemma_one();
    crate::rounding::decoding_preserves_order(magnitude, 0x3ff0_0000_0000_0000, 53);
}

/// The encoding of one.
proof fn lemma_one()
    ensures
        crate::rounding::decoded_steps(0x3ff0_0000_0000_0000, 53) == Format::Binary64.one(),
{
    lemma2_to64();
    lemma2_to64_rest();
    assert((53 - 1) as nat == 52);
    lemma_pow2_adds(52, 1022);
}

/// The aligned start is a whole number of windows from project beat zero, and
/// its window contains the position. Left out are the negative positions so
/// close to zero that a window's share of them rounds to zero.
pub proof fn window_contains_position(position: Binary64, window: WindowLength, start: i64)
    requires
        aligned_window_start(position, window) == Some(start),
        position.datum().negative ==> {
            let steps = position.datum().steps(Format::Binary64);
            steps == 0 || 2 * steps > window.beats()
        },
    ensures
        start as int % window.beats() as int == 0,
        ({
            let one = Format::Binary64.one();
            let value = position.datum().value(Format::Binary64);
            start * one <= value < (start + window.beats()) * one
        }),
{
    reveal(Binary64::spec_div);
    let one = Format::Binary64.one();
    let beats = window.beats() as nat;
    let steps = position.datum().steps(Format::Binary64);
    let magnitude = position.datum().magnitude as nat;
    let negative = position.datum().negative;
    let value = position.datum().value(Format::Binary64);
    let exponent: nat = match window {
        WindowLength::OneBeat => 0,
        WindowLength::TwoBeats => 1,
        WindowLength::FourBeats => 2,
        WindowLength::EightBeats => 3,
    };
    lemma2_to64();
    lemma_pow2_pos(1074);
    assert(pow2(exponent) == beats);
    lemma_width(window);
    let quotient = position.div(Binary64::from_whole(window.beats() as u64));
    let encoding = crate::rounding::encoded_ratio(steps * one, beats * one, 53);
    assert((steps * one) * 1 <= steps * (beats * one)) by (nonlinear_arith)
        requires
            beats >= 1,
            steps >= 0,
            one > 0,
    ;
    assert(beats * one > 0) by (nonlinear_arith)
        requires
            beats >= 1,
            one > 0,
    ;
    crate::rounding::encoding_preserves_order(steps * one, beats * one, steps, 1, 53);
    crate::rounding::decoding_round_trips(magnitude, 53);
    assert(encoding <= magnitude);
    assert(quotient.datum() == Datum { negative, magnitude: encoding as u64 });
    let index = window_index(position, window);
    let share_steps = crate::rounding::decoded_steps(encoding, 53);
    let share = crate::float::signed(negative, share_steps);
    assert(index == share / (one as int));
    lemma_mod_multiples_basic(index, beats as int);
    assert(start == index * beats);
    lemma_fundamental_div_mod(share, one as int);
    lemma_mod_bound(share, one as int);
    if steps % beats == 0 {
        lemma_exact_share(magnitude, exponent);
        assert(value == share * beats) by (nonlinear_arith)
            requires
                steps == share_steps * beats,
                (negative ==> value == -(steps as int) && share == -(share_steps as int)),
                (!negative ==> value == steps && share == share_steps),
        ;
        let rest = share % (one as int);
        assert(start * one <= value < (start + beats) * one) by (nonlinear_arith)
            requires
                value == share * beats,
                share == one * index + rest,
                0 <= rest < one,
                start == index * beats,
                beats >= 1,
        ;
    } else {
        lemma_indivisible_is_tiny(magnitude, exponent);
        lemma_one();
        crate::rounding::decoding_preserves_order(encoding, 0x3ff0_0000_0000_0000, 53);
        assert(share_steps < one);
        assert(one <= beats * one) by (nonlinear_arith)
            requires
                beats >= 1,
        ;
        if negative {
            lemma_share_is_not_lost(steps, beats, one);
            crate::rounding::decoding_preserves_order(0, encoding, 53);
            lemma_fundamental_div_mod_converse(share, one as int, -1, one - share_steps);
            assert(index == -1);
            assert(index * beats == -(beats as int)) by (nonlinear_arith)
                requires
                    index == -1,
            ;
            assert(start * one == -((beats * one) as int)) by (nonlinear_arith)
                requires
                    start == -(beats as int),
            ;
            assert((start + beats) * one == 0) by (nonlinear_arith)
                requires
                    start == -(beats as int),
            ;
        } else {
            lemma_fundamental_div_mod_converse(share, one as int, 0, share);
            assert(index * beats == 0) by (nonlinear_arith)
                requires
                    index == 0,
            ;
            assert(start * one == 0) by (nonlinear_arith)
                requires
                    start == 0,
            ;
            assert((start + beats) * one == beats * one) by (nonlinear_arith)
                requires
                    start == 0,
            ;
        }
    }
}

/// More than half of a step does not round to zero.
proof fn lemma_share_is_not_lost(steps: nat, beats: nat, one: nat)
    requires
        2 * steps > beats,
        beats > 0,
        one > 0,
    ensures
        crate::rounding::encoded_ratio(steps * one, beats * one, 53) > 0,
{
    let num = steps * one;
    let den = beats * one;
    assert(den > 0) by (nonlinear_arith)
        requires
            den == beats * one,
            beats > 0,
            one > 0,
    ;
    assert(2 * num > den) by (nonlinear_arith)
        requires
            den == beats * one,
            num == steps * one,
            2 * steps > beats,
            one > 0,
    ;
    lemma2_to64();
    lemma2_to64_rest();
    assert((53 - 1) as nat == 52);
    if num >= den {
        assert(1 * den <= num * 1);
        crate::rounding::encoding_preserves_order(1, 1, num, den, 53);
        crate::rounding::decoding_round_trips(1, 53);
    } else {
        lemma_fundamental_div_mod_converse(num as int, den as int, 0, num as int);
        assert(den * 1 == den);
    }
}

/// What the encoding of a natural number stands for.
proof fn lemma_whole_double(whole: nat, magnitude: nat, field: nat)
    requires
        1023 <= field <= 1075,
        0x10_0000_0000_0000 <= whole * pow2((1075 - field) as nat) < 0x20_0000_0000_0000,
        magnitude == field * 0x10_0000_0000_0000 + (whole * pow2((1075 - field) as nat)
            - 0x10_0000_0000_0000),
    ensures
        crate::rounding::decoded_steps(magnitude, 53) == whole * Format::Binary64.one(),
{
    lemma2_to64();
    lemma2_to64_rest();
    assert((53 - 1) as nat == 52);
    let scale = pow2((1075 - field) as nat);
    let power = (field - 1) as nat;
    assert(magnitude / 0x10_0000_0000_0000 == field);
    lemma_pow2_adds((1075 - field) as nat, power);
    assert((whole * scale) * pow2(power) == whole * (scale * pow2(power))) by (nonlinear_arith);
}

/// The exact ratio bounds the rounded one, when the bound is held exactly.
proof fn lemma_rounded_at_most(num: nat, den: nat, whole: nat)
    requires
        den > 0,
        whole < 0x80_0000,
        num <= (whole * Format::Binary64.one()) * den,
    ensures
        ({
            let encoding = crate::rounding::encoded_ratio(num, den, 53);
            &&& crate::rounding::decoded_steps(encoding, 53) <= whole * Format::Binary64.one()
            &&& encoding <= 0x4160_0000_0000_0000
        }),
{
    let one = Format::Binary64.one();
    let bound = whole * one;
    let encoding = crate::rounding::encoded_ratio(num, den, 53);
    let limit = crate::rounding::encoded_ratio(bound, 1, 53);
    lemma2_to64();
    lemma2_to64_rest();
    lemma_pow2_pos(1074);
    crate::rounding::encoding_is_exact(whole, 1074, 53);
    assert(num * 1 <= bound * den);
    crate::rounding::encoding_preserves_order(num, den, bound, 1, 53);
    if encoding < limit {
        crate::rounding::decoding_preserves_order(encoding, limit, 53);
    }
    lemma_whole_double(0x80_0000, 0x4160_0000_0000_0000, 0x416);
    assert(bound <= 0x80_0000 * one) by (nonlinear_arith)
        requires
            bound == whole * one,
            whole < 0x80_0000,
    ;
    crate::rounding::encoding_preserves_order(bound, 1, 0x80_0000 * one, 1, 53);
    crate::rounding::decoding_round_trips(0x4160_0000_0000_0000, 53);
}

/// The exact ratio bounds the rounded one from below by a power of two.
proof fn lemma_rounded_at_least(num: nat, den: nat, power: nat)
    requires
        den > 0,
        pow2(power) * den <= num,
    ensures
        crate::rounding::decoded_steps(crate::rounding::encoded_ratio(num, den, 53), 53) >= pow2(
            power,
        ),
{
    let encoding = crate::rounding::encoded_ratio(num, den, 53);
    let limit = crate::rounding::encoded_ratio(pow2(power), 1, 53);
    lemma2_to64();
    lemma2_to64_rest();
    assert(1 * pow2(power) == pow2(power));
    crate::rounding::encoding_is_exact(1, power, 53);
    crate::rounding::encoding_preserves_order(pow2(power), 1, num, den, 53);
    if limit < encoding {
        crate::rounding::decoding_preserves_order(limit, encoding, 53);
    }
}

/// A product with a whole factor of at least one stays between bounds.
proof fn lemma_product_bounds(value: Binary64, factor: Binary64, most: nat, times: nat)
    requires
        value.is_finite(),
        !value.datum().negative,
        pow2(1065) <= value.datum().steps(Format::Binary64) <= most * Format::Binary64.one(),
        factor.is_finite(),
        !factor.datum().negative,
        factor.datum().steps(Format::Binary64) == times * Format::Binary64.one(),
        times >= 1,
        most * times < 0x80_0000,
    ensures
        value.mul(factor).is_finite(),
        !value.mul(factor).datum().negative,
        pow2(1065) <= value.mul(factor).datum().steps(Format::Binary64) <= (most * times)
            * Format::Binary64.one(),
{
    reveal(Binary64::spec_mul);
    let one = Format::Binary64.one();
    let steps = value.datum().steps(Format::Binary64);
    let scale = factor.datum().steps(Format::Binary64);
    lemma_pow2_pos(1074);
    assert(steps * scale <= ((most * times) * one) * one) by (nonlinear_arith)
        requires
            steps <= most * one,
            scale == times * one,
    ;
    assert(pow2(1065) * one <= steps * scale) by (nonlinear_arith)
        requires
            pow2(1065) <= steps,
            scale == times * one,
            times >= 1,
    ;
    lemma_rounded_at_most(steps * scale, one, most * times);
    lemma_rounded_at_least(steps * scale, one, 1065);
}

/// The capture capacity holds every beat window at every accepted tempo and
/// every supported sample rate.
pub proof fn capacity_covers_every_window(
    sample_rate: Binary64,
    tempo_bpm: Binary64,
    window: WindowLength,
)
    requires
        Binary64::one().le(sample_rate),
        sample_rate.le(Binary64::from_bits(MAX_CAPTURE_SAMPLE_RATE)),
        tempo_in_range(tempo_bpm),
    ensures
        window_samples(sample_rate, tempo_bpm, window, MAX_CAPTURE_SAMPLES) is Some,
{
    reveal(Binary64::spec_div);
    let one = Format::Binary64.one();
    let sixty = Binary64::from_bits(SIXTY);
    lemma2_to64();
    lemma2_to64_rest();
    lemma_pow2_pos(1074);
    lemma_one();
    lemma_whole_double(60, 0x404e_0000_0000_0000, 0x404);
    lemma_whole_double(20, 0x4034_0000_0000_0000, 0x403);
    lemma_whole_double(300, 0x4072_c000_0000_0000, 0x407);
    lemma_whole_double(192_000, 0x4107_7000_0000_0000, 0x410);
    let rate_steps = sample_rate.datum().steps(Format::Binary64);
    let tempo_steps = tempo_bpm.datum().steps(Format::Binary64);
    lemma_steps_in_order(0x3ff0_0000_0000_0000, sample_rate.datum().magnitude as nat);
    lemma_steps_in_order(sample_rate.datum().magnitude as nat, 0x4107_7000_0000_0000);
    lemma_steps_in_order(0x4034_0000_0000_0000, tempo_bpm.datum().magnitude as nat);
    lemma_steps_in_order(tempo_bpm.datum().magnitude as nat, 0x4072_c000_0000_0000);
    assert(tempo_steps > 0) by (nonlinear_arith)
        requires
            tempo_steps >= 20 * one,
            one > 0,
    ;
    assert(rate_steps * one <= (9600 * one) * tempo_steps) by (nonlinear_arith)
        requires
            rate_steps <= 192_000 * one,
            tempo_steps >= 20 * one,
            one > 0,
    ;
    lemma_pow2_adds(9, 1065);
    assert(pow2(9) == 512);
    assert(pow2(1065) * tempo_steps <= rate_steps * one) by (nonlinear_arith)
        requires
            512 * pow2(1065) == one,
            tempo_steps <= 300 * one,
            one <= rate_steps,
            one > 0,
    ;
    lemma_rounded_at_most(rate_steps * one, tempo_steps, 9600);
    lemma_rounded_at_least(rate_steps * one, tempo_steps, 1065);
    let ratio = sample_rate.div(tempo_bpm);
    lemma_product_bounds(ratio, sixty, 9600, 60);
    lemma_width(window);
    let beats = Binary64::from_whole(window.beats() as u64);
    lemma_product_bounds(ratio.mul(sixty), beats, 576_000, window.beats() as nat);
    let duration = window_duration(sample_rate, tempo_bpm, window);
    let value = duration.datum().value(Format::Binary64);
    lemma_pow2_pos(1065);
    assert(0 < value <= 4_608_000 * one) by (nonlinear_arith)
        requires
            0 < value <= (576_000 * window.beats()) * one,
            window.beats() <= 8,
            one > 0,
    ;
    assert(duration.datum().magnitude > 0) by {
        if duration.datum().magnitude == 0 {
            lemma_pow2_pos(52);
            assert((53 - 1) as nat == 52);
        }
    }
    lemma_fundamental_div_mod(-value, one as int);
    lemma_mod_bound(-value, one as int);
    assert(-(-value / (one as int)) <= 4_608_000) by (nonlinear_arith)
        requires
            -value == one * (-value / (one as int)) + (-value) % (one as int),
            (-value) % (one as int) < one,
            value <= 4_608_000 * one,
            one > 0,
    ;
}

proof fn lemma_steps_in_order(low: nat, high: nat)
    requires
        low <= high,
    ensures
        crate::rounding::decoded_steps(low, 53) <= crate::rounding::decoded_steps(high, 53),
{
    if low < high {
        crate::rounding::decoding_preserves_order(low, high, 53);
    }
}

/// The fractional position within a selected beat window.
pub open spec fn spec_window_phase(song_pos_beats: Option<Binary64>, window: WindowLength)
    -> Option<Binary32> {
    match valid_position(song_pos_beats) {
        Some(position) => {
            let width = Binary64::from_whole(window.beats() as u64);
            Some(
                position.rem_euclid(width).div(width).clamp(
                    Binary64::zero(),
                    Binary64::from_bits(PHASE_LIMIT),
                ).to_single(),
            )
        },
        None => None,
    }
}

/// Return the fractional current position within a selected beat window.
#[verifier::when_used_as_spec(spec_window_phase)]
pub fn window_phase(song_pos_beats: Option<Binary64>, window: WindowLength) -> (phase: Option<
    Binary32,
>)
    ensures
        phase == spec_window_phase(song_pos_beats, window),
{
    match valid_position(song_pos_beats) {
        Some(position) => {
            let width: Binary64 = Binary64::from_whole(window.beats() as u64);
            Some(
                position.rem_euclid(width).div(width).clamp(
                    Binary64::zero(),
                    Binary64::from_bits(PHASE_LIMIT),
                ).to_single(),
            )
        },
        None => None,
    }
}

/// The remainder by a window's number of beats is a number.
proof fn lemma_remainder_is_number(position: Binary64, window: WindowLength)
    requires
        position.is_finite(),
    ensures
        !position.rem_euclid(Binary64::from_whole(window.beats() as u64)).is_nan(),
{
    reveal(Binary64::spec_rem_euclid);
    reveal(Binary64::spec_add);
    lemma_width(window);
    let width = Binary64::from_whole(window.beats() as u64);
    let remainder = Binary64::of(
        Datum::remainder(Format::Binary64, position.datum(), width.datum()),
    );
    assert(!remainder.is_nan());
}

/// Rounding the largest phase to single precision leaves it below one.
proof fn lemma_phase_limit()
    ensures
        crate::rounding::encoded_ratio(
            crate::rounding::decoded_steps(PHASE_LIMIT as nat, 53),
            pow2(925),
            24,
        ) < 0x3f80_0000,
{
    lemma2_to64();
    lemma2_to64_rest();
    assert((53 - 1) as nat == 52);
    assert((24 - 1) as nat == 23);
    let double_steps = crate::rounding::decoded_steps(PHASE_LIMIT as nat, 53);
    let single: nat = 0x3f7f_fff0;
    let single_steps = crate::rounding::decoded_steps(single, 24);
    assert(double_steps == 0x1f_fffd_e721_0be9 * pow2(1021));
    assert(single_steps == 0xff_fff0 * pow2(125));
    lemma_pow2_adds(125, 925);
    lemma_pow2_adds(29, 1021);
    lemma_pow2_pos(925);
    lemma_pow2_pos(1021);
    assert(double_steps * 1 <= single_steps * pow2(925)) by (nonlinear_arith)
        requires
            double_steps == 0x1f_fffd_e721_0be9 * pow2(1021),
            single_steps == 0xff_fff0 * pow2(125),
            pow2(125) * pow2(925) == pow2(29) * pow2(1021),
            pow2(29) == 0x2000_0000,
            pow2(1021) > 0,
    ;
    crate::rounding::encoding_preserves_order(double_steps, pow2(925), single_steps, 1, 24);
    crate::rounding::decoding_round_trips(single, 24);
}

/// A phase is a share of its window: at least zero and less than one.
pub proof fn phases_are_shares(song_pos_beats: Option<Binary64>, window: WindowLength)
    ensures
        window_phase(song_pos_beats, window) matches Some(phase) ==> Binary32::zero().le(phase)
            && phase.lt(Binary32::one()),
{
    if let Some(position) = valid_position(song_pos_beats) {
        reveal(Binary64::spec_to_single);
        let width = Binary64::from_whole(window.beats() as u64);
        let limit = Binary64::from_bits(PHASE_LIMIT);
        lemma_width(window);
        lemma_remainder_is_number(position, window);
        position.rem_euclid(width).lemma_div_is_number(width);
        let phase = position.rem_euclid(width).div(width).clamp(Binary64::zero(), limit);
        let magnitude = phase.datum().magnitude as nat;
        assert(magnitude <= PHASE_LIMIT);
        assert(phase.datum().negative ==> magnitude == 0);
        lemma_steps_in_order(magnitude, PHASE_LIMIT as nat);
        let steps = crate::rounding::decoded_steps(magnitude, 53);
        let most = crate::rounding::decoded_steps(PHASE_LIMIT as nat, 53);
        lemma_pow2_pos(925);
        lemma_phase_limit();
        assert(steps * pow2(925) <= most * pow2(925)) by (nonlinear_arith)
            requires
                steps <= most,
        ;
        crate::rounding::encoding_preserves_order(steps, pow2(925), most, pow2(925), 24);
        if magnitude == 0 {
            lemma_pow2_pos(52);
            lemma_pow2_pos(23);
            lemma_pow2_pos(24);
            assert((53 - 1) as nat == 52);
            assert((24 - 1) as nat == 23);
            assert(steps == 0);
            crate::rounding::decoding_round_trips(0, 24);
            assert(crate::rounding::decoded_steps(0, 24) == 0);
            crate::rounding::encoding_preserves_order(0, pow2(925), 0, 1, 24);
        }
    }
}

/// Return the fractional current position in a one-beat waveform window.
pub fn current_phase(song_pos_beats: Option<Binary64>) -> (phase: Option<Binary32>)
    ensures
        phase == spec_window_phase(song_pos_beats, WindowLength::OneBeat),
{
    window_phase(song_pos_beats, WindowLength::OneBeat)
}

/// Whether two tempos differ, or only one is known.
pub open spec fn spec_tempo_changed(previous: Option<Binary64>, current: Option<Binary64>) -> bool {
    match (previous, current) {
        (Some(previous), Some(current)) => !(previous.le(current) && current.le(previous)),
        (None, None) => false,
        _ => true,
    }
}

/// Compare the tempos of two successive blocks.
#[verifier::when_used_as_spec(spec_tempo_changed)]
pub fn tempo_changed(previous: Option<Binary64>, current: Option<Binary64>) -> (changed: bool)
    ensures
        changed == spec_tempo_changed(previous, current),
{
    match (previous, current) {
        (Some(previous), Some(current)) => !(previous.le(current) && current.le(previous)),
        (None, None) => false,
        _ => true,
    }
}

/// The number of samples between two live previews at sixty a second.
pub open spec fn spec_live_preview_cadence_samples(sample_rate: Binary64) -> usize {
    sample_rate.div(Binary64::from_bits(SIXTY)).ceil().max(Binary64::one()).to_usize()
}

/// Return the number of samples between two live previews.
#[verifier::when_used_as_spec(spec_live_preview_cadence_samples)]
pub fn live_preview_cadence_samples(sample_rate: Binary64) -> (cadence: usize)
    ensures
        cadence == spec_live_preview_cadence_samples(sample_rate),
{
    sample_rate.div(Binary64::from_bits(SIXTY)).ceil().max(Binary64::one()).to_usize()
}

/// So many frames do not take longer than a second.
pub open spec fn fit_in_a_second(frames: nat, sample_rate: Binary64) -> bool {
    &&& !sample_rate.is_nan()
    &&& sample_rate.is_finite() ==> frames * Format::Binary64.one() <= sample_rate.datum().value(
        Format::Binary64,
    )
    &&& sample_rate.datum().negative ==> frames == 0
}

/// A ratio that is at least a number held exactly is not rounded below it.
proof fn lemma_rounded_not_below(num: nat, den: nat, digits: nat, power: nat)
    requires
        den > 0,
        digits < pow2(53),
        (digits * pow2(power)) * den <= num,
    ensures
        crate::rounding::decoded_steps(crate::rounding::encoded_ratio(num, den, 53), 53) >= digits
            * pow2(power),
{
    let exact = digits * pow2(power);
    crate::rounding::encoding_preserves_order(exact, 1, num, den, 53);
    crate::rounding::encoding_is_exact(digits, power, 53);
    lemma_steps_in_order(
        crate::rounding::encoded_ratio(exact, 1, 53),
        crate::rounding::encoded_ratio(num, den, 53),
    );
}

/// Sixty cadences hold every second's frames, as long as a machine word can
/// hold the cadence and a double's digits can tell it from the next one.
pub proof fn sixty_cadences_make_a_second(frames: nat, sample_rate: Binary64)
    requires
        fit_in_a_second(frames, sample_rate),
        frames <= 60 * usize::MAX,
        frames <= pow2(51),
    ensures
        frames <= 60 * live_preview_cadence_samples(sample_rate),
{
    if frames > 0 {
        reveal(Binary64::spec_div);
        reveal(Binary64::spec_ceil);
        reveal(Binary64::spec_to_usize);
        let one = Format::Binary64.one();
        let sixty = Binary64::from_bits(SIXTY);
        lemma2_to64();
        lemma2_to64_rest();
        lemma_pow2_pos(1074);
        lemma_pow2_pos(1068);
        lemma_one();
        lemma_whole_double(60, 0x404e_0000_0000_0000, 0x404);
        lemma_pow2_adds(6, 1068);
        let share = sample_rate.div(sixty);
        let most = share.ceil();
        let least = (frames + 59) / 60;
        let power: nat = 1068;
        let digits = ((least - 1) * 64 + 1) as nat;
        assert(60 * digits <= 64 * frames);
        if sample_rate.is_finite() && share.is_finite() {
            let rate_steps = sample_rate.datum().steps(Format::Binary64);
            assert((digits * pow2(1068)) * (60 * one) <= rate_steps * one) by (nonlinear_arith)
                requires
                    frames * one <= rate_steps,
                    60 * digits <= 64 * frames,
                    one == 64 * pow2(1068),
            ;
            lemma_rounded_not_below(rate_steps * one, 60 * one, digits, power);
            let steps = share.datum().steps(Format::Binary64);
            assert(steps >= digits * pow2(1068));
            let value = share.datum().value(Format::Binary64);
            let whole = share.datum().ceil_whole(Format::Binary64);
            lemma_fundamental_div_mod(-value, one as int);
            lemma_mod_bound(-value, one as int);
            assert(whole >= least) by (nonlinear_arith)
                requires
                    -value == one * (-value / (one as int)) + (-value) % (one as int),
                    0 <= (-value) % (one as int),
                    whole == -(-value / (one as int)),
                    value >= digits * pow2(1068),
                    digits == (least - 1) * 64 + 1,
                    one == 64 * pow2(1068),
                    pow2(1068) > 0,
            ;
            assert((least * pow2(1074)) * 1 <= whole as nat * one) by (nonlinear_arith)
                requires
                    whole >= least,
                    one == pow2(1074),
            ;
            lemma_rounded_not_below(whole as nat * one, 1, least, 1074);
            if most.is_finite() {
                let kept = most.datum().steps(Format::Binary64);
                assert(kept >= least * one);
                assert(least * one >= one) by (nonlinear_arith)
                    requires
                        least >= 1,
                ;
                if most.lt(Binary64::one()) {
                    crate::rounding::decoding_preserves_order(
                        most.datum().magnitude as nat,
                        0x3ff0_0000_0000_0000,
                        53,
                    );
                }
                lemma_fundamental_div_mod(kept as int, one as int);
                lemma_mod_bound(kept as int, one as int);
                assert(kept / one >= least) by (nonlinear_arith)
                    requires
                        kept == one * (kept / one) + kept % one,
                        kept % one < one,
                        kept >= least * one,
                        one > 0,
                ;
            }
        }
    }
}

/// A tempo is taken as it is from 20 to 300 beats per minute, and a position as
/// it is when it is finite; any other is left out.
pub proof fn transports_keep_what_is_usable(transport: TransportInfo)
    ensures
        ({
            let kept = transport.validated();
            &&& kept.is_playing == transport.is_playing
            &&& match transport.tempo_bpm {
                Some(tempo) => kept.tempo_bpm == if tempo.is_finite() && 20
                    * Format::Binary64.one() <= tempo.datum().value(Format::Binary64) <= 300
                    * Format::Binary64.one() {
                    Some(tempo)
                } else {
                    None
                },
                None => kept.tempo_bpm is None,
            }
            &&& match transport.song_pos_beats {
                Some(position) => kept.song_pos_beats == if position.is_finite() {
                    Some(position)
                } else {
                    None
                },
                None => kept.song_pos_beats is None,
            }
        }),
{
    lemma2_to64();
    lemma2_to64_rest();
    lemma_whole_double(20, 0x4034_0000_0000_0000, 0x403);
    lemma_whole_double(300, 0x4072_c000_0000_0000, 0x407);
    if let Some(tempo) = transport.tempo_bpm {
        let format = Format::Binary64;
        let low = Binary64::from_bits(MIN_TEMPO_BPM);
        let high = Binary64::from_bits(MAX_TEMPO_BPM);
        if tempo.is_finite() {
            if low.le(tempo) {
                crate::ordering::lemma_values_in_order(format, low.datum(), tempo.datum());
            } else {
                lemma_below(tempo, low);
            }
            if tempo.le(high) {
                crate::ordering::lemma_values_in_order(format, tempo.datum(), high.datum());
            } else {
                lemma_below(high, tempo);
            }
        }
    }
}

/// A number that lies before a positive one has the lesser value.
proof fn lemma_below(low: Binary64, high: Binary64)
    requires
        low.is_finite(),
        high.is_finite(),
        low.lt(high),
        !high.datum().negative,
    ensures
        low.datum().value(Format::Binary64) < high.datum().value(Format::Binary64),
{
    lemma_pow2_pos(52);
    assert((53 - 1) as nat == 52);
    assert(crate::rounding::decoded_steps(0, 53) == 0);
    if low.datum().negative {
        if high.datum().magnitude > 0 {
            crate::rounding::decoding_preserves_order(0, high.datum().magnitude as nat, 53);
        } else {
            crate::rounding::decoding_preserves_order(0, low.datum().magnitude as nat, 53);
        }
    } else {
        crate::rounding::decoding_preserves_order(
            low.datum().magnitude as nat,
            high.datum().magnitude as nat,
            53,
        );
    }
}

/// The least whole number not below a value lies less than one above it.
proof fn lemma_cover(number: Binary64)
    ensures
        ({
            let one = Format::Binary64.one();
            let value = number.datum().value(Format::Binary64);
            (number.whole_cover() - 1) * one < value <= number.whole_cover() * one
        }),
{
    let one = Format::Binary64.one() as int;
    let value = number.datum().value(Format::Binary64);
    let whole = number.whole_cover();
    lemma_pow2_pos(1074);
    lemma_fundamental_div_mod(-value, one);
    lemma_mod_bound(-value, one);
    let rest = (-value) % one;
    let quotient = -value / one;
    assert((whole - 1) * one < value <= whole * one) by (nonlinear_arith)
        requires
            -value == one * quotient + rest,
            0 <= rest < one,
            whole == -quotient,
    ;
}

/// A beat window has the least whole number of samples that covers its beats:
/// one beat takes the sample rate over the tempo, sixty times, and a longer
/// window so many times as much. There is no such number for a sample rate or a
/// tempo that cannot be used, and none that the capacity does not hold.
pub proof fn windows_cover_their_beats(
    sample_rate: Binary64,
    tempo_bpm: Binary64,
    window: WindowLength,
    capacity: usize,
)
    ensures
        ({
            let one = Format::Binary64.one();
            let beat = sample_rate.div(tempo_bpm).mul(Binary64 { bits: 0x404e_0000_0000_0000 });
            let duration = match window {
                WindowLength::OneBeat => beat,
                WindowLength::TwoBeats => beat.mul(Binary64::from_whole(2)),
                WindowLength::FourBeats => beat.mul(Binary64::from_whole(4)),
                WindowLength::EightBeats => beat.mul(Binary64::from_whole(8)),
            };
            let value = duration.datum().value(Format::Binary64);
            let usable = sample_rate.is_finite() && Binary64::zero().lt(sample_rate) && (Binary64 {
                bits: 0x4034_0000_0000_0000,
            }).le(tempo_bpm) && tempo_bpm.le(Binary64 { bits: 0x4072_c000_0000_0000 });
            match window_samples(sample_rate, tempo_bpm, window, capacity) {
                Some(count) => {
                    &&& usable
                    &&& duration.is_finite()
                    &&& 1 <= count <= capacity
                    &&& (count - 1) * one < value <= count * one
                },
                None => {
                    ||| !usable
                    ||| capacity == 0
                    ||| !duration.is_finite()
                    ||| value <= 0
                    ||| value > capacity * one
                },
            }
        }),
{
    let duration = window_duration(sample_rate, tempo_bpm, window);
    let one = Format::Binary64.one();
    let value = duration.datum().value(Format::Binary64);
    lemma_cover(duration);
    lemma_fitting_samples(duration, capacity);
    lemma_pow2_pos(1074);
    lemma_pow2_pos(52);
    assert((53 - 1) as nat == 52);
    assert(crate::rounding::decoded_steps(0, 53) == 0);
    if duration.is_finite() && !Binary64::zero().lt(duration) {
        crate::ordering::lemma_values_in_order(
            Format::Binary64,
            duration.datum(),
            Binary64::zero().datum(),
        );
    }
    let whole = duration.whole_cover();
    let beat = sample_rate.div(tempo_bpm).mul(Binary64 { bits: 0x404e_0000_0000_0000 });
    assert(duration == match window {
        WindowLength::OneBeat => beat,
        WindowLength::TwoBeats => beat.mul(Binary64::from_whole(2)),
        WindowLength::FourBeats => beat.mul(Binary64::from_whole(4)),
        WindowLength::EightBeats => beat.mul(Binary64::from_whole(8)),
    });
    if duration.is_finite() && Binary64::zero().lt(duration) {
        crate::rounding::decoding_preserves_order(0, duration.datum().magnitude as nat, 53);
        assert(whole >= 1) by (nonlinear_arith)
            requires
                0 < value <= whole * one,
                one > 0,
        ;
    }
    if whole > capacity {
        assert(value > capacity * one) by (nonlinear_arith)
            requires
                (whole - 1) * one < value,
                whole - 1 >= capacity,
                one >= 0,
        ;
    }
}

/// A whole number that a double's digits can hold is its own nearest double.
proof fn lemma_ceiling(number: Binary64)
    requires
        number.is_finite(),
        Binary64::zero().lt(number),
        number.whole_cover() < pow2(53),
    ensures
        number.whole_cover() >= 1,
        number.ceil().is_finite(),
        !number.ceil().datum().negative,
        number.ceil().datum().value(Format::Binary64) == number.whole_cover()
            * Format::Binary64.one(),
{
    reveal(Binary64::spec_ceil);
    let one = Format::Binary64.one();
    let whole = number.whole_cover();
    let value = number.datum().value(Format::Binary64);
    lemma_pow2_pos(1074);
    lemma_pow2_pos(52);
    assert((53 - 1) as nat == 52);
    assert(crate::rounding::decoded_steps(0, 53) == 0);
    crate::rounding::decoding_preserves_order(0, number.datum().magnitude as nat, 53);
    lemma_cover(number);
    assert(whole >= 1) by (nonlinear_arith)
        requires
            0 < value <= whole * one,
            one > 0,
    ;
    crate::rounding::encoding_is_exact(whole as nat, 1074, 53);
    // Whole numbers of so few digits are far from infinity.
    lemma2_to64();
    lemma2_to64_rest();
    lemma_pow2_adds(53, 1074);
    lemma_pow2_adds(52, 1075);
    let limit: nat = 0x4340_0000_0000_0000;
    assert(crate::rounding::decoded_steps(limit, 53) == pow2(52) * pow2(1075));
    let count = whole as nat;
    assert(count * one <= pow2(53) * one) by (nonlinear_arith)
        requires
            count < pow2(53),
    ;
    crate::rounding::encoding_preserves_order(whole as nat * one, 1, pow2(1127), 1, 53);
    crate::rounding::decoding_round_trips(limit, 53);
}

/// The samples in so many seconds or in a share of one: the least whole number
/// that covers them, and one at least.
pub open spec fn covers(count: int, duration: Binary64) -> bool {
    let one = Format::Binary64.one();
    let value = duration.datum().value(Format::Binary64);
    &&& count >= 1
    &&& (count - 1) * one < value <= count * one
}

/// A fallback window has the least whole number of samples that covers half a
/// second, or as many as the capacity holds.
pub proof fn fallbacks_cover_half_a_second(sample_rate: Binary64, capacity: usize)
    requires
        sample_rate.is_finite(),
        Binary64::zero().lt(sample_rate),
        capacity > 0,
        ({
            let half = sample_rate.mul(Binary64 { bits: 0x3fe0_0000_0000_0000 });
            half.is_finite() && Binary64::zero().lt(half) && half.whole_cover() < pow2(53)
        }),
    ensures
        ({
            let half = sample_rate.mul(Binary64 { bits: 0x3fe0_0000_0000_0000 });
            let count = fallback_window_samples(sample_rate, capacity);
            &&& 1 <= count <= capacity
            &&& covers(count as int, half) || (count == capacity
                && half.datum().value(Format::Binary64) > capacity * Format::Binary64.one())
        }),
{
    let half = sample_rate.mul(Binary64 { bits: 0x3fe0_0000_0000_0000 });
    let one = Format::Binary64.one();
    let most = half.ceil().max(Binary64::one());
    let whole = half.whole_cover();
    lemma_ceiling(half);
    lemma_cover(half);
    lemma_pow2_pos(1074);
    lemma_one();
    lemma_fitting_samples(most, capacity);
    lemma_largest_with_one(half.ceil(), whole);
    lemma_whole_cover_of_whole(most, whole);
    if whole > capacity {
        let value = half.datum().value(Format::Binary64);
        assert(value > capacity * one) by (nonlinear_arith)
            requires
                (whole - 1) * one < value,
                whole - 1 >= capacity,
                one >= 0,
        ;
    }
}

/// A whole number of at least one stays when it is held above one.
proof fn lemma_largest_with_one(number: Binary64, whole: int)
    requires
        number.is_finite(),
        whole >= 1,
        number.datum().value(Format::Binary64) == whole * Format::Binary64.one(),
    ensures
        number.max(Binary64::one()) == number,
        Binary64::zero().lt(number),
{
    let one = Format::Binary64.one();
    lemma_pow2_pos(1074);
    lemma_pow2_pos(52);
    assert((53 - 1) as nat == 52);
    assert(crate::rounding::decoded_steps(0, 53) == 0);
    lemma_one();
    assert(whole * one >= one) by (nonlinear_arith)
        requires
            whole >= 1,
    ;
    if number.lt(Binary64::one()) {
        lemma_below(number, Binary64::one());
    }
}

proof fn lemma_whole_cover_of_whole(number: Binary64, whole: int)
    requires
        number.datum().value(Format::Binary64) == whole * Format::Binary64.one(),
    ensures
        number.whole_cover() == whole,
{
    let one = Format::Binary64.one() as int;
    lemma_pow2_pos(1074);
    lemma_cover(number);
    let other = number.whole_cover();
    assert(other == whole) by (nonlinear_arith)
        requires
            (other - 1) * one < whole * one <= other * one,
            one > 0,
    ;
}

/// Previews are as many samples apart as it takes to cover a sixtieth of a
/// second, and no more.
pub proof fn cadences_cover_a_sixtieth_of_a_second(sample_rate: Binary64)
    requires
        sample_rate.is_finite(),
        Binary64::zero().lt(sample_rate),
        ({
            let share = sample_rate.div(Binary64 { bits: 0x404e_0000_0000_0000 });
            share.is_finite() && Binary64::zero().lt(share) && share.whole_cover() < pow2(53)
                && share.whole_cover() <= usize::MAX
        }),
    ensures
        covers(
            live_preview_cadence_samples(sample_rate) as int,
            sample_rate.div(Binary64 { bits: 0x404e_0000_0000_0000 }),
        ),
{
    reveal(Binary64::spec_to_usize);
    let share = sample_rate.div(Binary64 { bits: 0x404e_0000_0000_0000 });
    let one = Format::Binary64.one();
    let whole = share.whole_cover();
    lemma_ceiling(share);
    lemma_cover(share);
    lemma_pow2_pos(1074);
    lemma_largest_with_one(share.ceil(), whole);
    let steps = share.ceil().datum().steps(Format::Binary64);
    assert(steps == whole as nat * one);
    lemma_div_by_multiple(whole, one as int);
}

/// Every position within so many beats of project beat zero as a host can reach
/// lies in a window.
pub proof fn positions_have_a_window(position: Binary64, window: WindowLength)
    requires
        position.is_finite(),
        position.datum().steps(Format::Binary64) <= 0x800_0000_0000_0000 * Format::Binary64.one(),
    ensures
        aligned_window_start(position, window) is Some,
{
    reveal(Binary64::spec_div);
    let one = Format::Binary64.one();
    let beats = window.beats() as nat;
    let steps = position.datum().steps(Format::Binary64);
    let magnitude = position.datum().magnitude as nat;
    lemma_pow2_pos(1074);
    lemma_width(window);
    let quotient = position.div(Binary64::from_whole(window.beats() as u64));
    assert((steps * one) * 1 <= steps * (beats * one)) by (nonlinear_arith)
        requires
            beats >= 1,
    ;
    assert(beats * one > 0) by (nonlinear_arith)
        requires
            beats >= 1,
            one > 0,
    ;
    crate::rounding::encoding_preserves_order(steps * one, beats * one, steps, 1, 53);
    crate::rounding::decoding_round_trips(magnitude, 53);
    lemma_steps_in_order(quotient.datum().magnitude as nat, magnitude);
    let value = quotient.datum().value(Format::Binary64);
    let index = window_index(position, window);
    let most = 0x800_0000_0000_0000int;
    lemma_fundamental_div_mod(value, one as int);
    lemma_mod_bound(value, one as int);
    let rest = value % (one as int);
    assert(-most <= index <= most) by (nonlinear_arith)
        requires
            value == one * index + rest,
            0 <= rest < one,
            -(most * one) <= value <= most * one,
            one > 0,
    ;
    assert(-(8 * most) <= index * beats <= 8 * most) by (nonlinear_arith)
        requires
            -most <= index <= most,
            0 <= beats <= 8,
    ;
}

/// The exponent of a window's number of beats.
spec fn beat_exponent(window: WindowLength) -> nat {
    match window {
        WindowLength::OneBeat => 0,
        WindowLength::TwoBeats => 1,
        WindowLength::FourBeats => 2,
        WindowLength::EightBeats => 3,
    }
}

/// What a position has over whole windows, exactly.
proof fn lemma_rest_of_position(position: Binary64, window: WindowLength)
    requires
        position.is_finite(),
    ensures
        ({
            let width = Binary64::from_whole(window.beats() as u64);
            let steps = position.datum().steps(Format::Binary64);
            let remainder = Datum::remainder(Format::Binary64, position.datum(), width.datum());
            &&& remainder.negative == position.datum().negative
            &&& remainder.finite(Format::Binary64)
            &&& remainder.steps(Format::Binary64) == steps % (window.beats() as nat
                * Format::Binary64.one())
            &&& Binary64::of(remainder).datum() == remainder
        }),
{
    let one = Format::Binary64.one();
    let beats = window.beats() as nat;
    let exponent = beat_exponent(window);
    let steps = position.datum().steps(Format::Binary64);
    lemma2_to64();
    lemma_pow2_pos(1074);
    lemma_width(window);
    lemma_pow2_adds(exponent, 1074);
    assert(pow2(exponent + 1074) == beats * one);
    crate::ordering::lemma_remainder_is_exact(
        Format::Binary64,
        position.datum().magnitude as nat,
        exponent + 1074,
    );
    lemma_pow2_pos(exponent + 1074);
    let rest = steps % (beats * one);
    lemma_mod_decreases(steps, beats * one);
    assert(rest * 1 <= steps * 1);
    crate::rounding::encoding_preserves_order(rest, 1, steps, 1, 53);
    crate::rounding::decoding_round_trips(position.datum().magnitude as nat, 53);
}

/// A phase is what a position has over whole windows, as a share of a window:
/// positions a whole number of windows apart have the same.
pub proof fn phases_are_counted_from_the_window(position: Binary64, window: WindowLength)
    requires
        position.is_finite(),
        Binary64::zero().le(position),
    ensures
        ({
            let width = Binary64::from_whole(window.beats() as u64);
            let rest = position.rem_euclid(width);
            &&& rest.is_finite()
            &&& rest.datum().value(Format::Binary64) == position.datum().value(Format::Binary64) % (
            window.beats() * Format::Binary64.one())
            &&& window_phase(Some(position), window) == Some(
                rest.div(width).clamp(
                    Binary64 { bits: 0 },
                    Binary64 { bits: 0x3fef_fffd_e721_0be9 },
                ).to_single(),
            )
        }),
{
    reveal(Binary64::spec_rem_euclid);
    lemma_rest_of_position(position, window);
    let format = Format::Binary64;
    let steps = position.datum().steps(format);
    let span = window.beats() as nat * format.one();
    lemma_pow2_pos(1074);
    lemma_pow2_pos(52);
    assert((53 - 1) as nat == 52);
    assert(crate::rounding::decoded_steps(0, 53) == 0);
    assert(span > 0) by (nonlinear_arith)
        requires
            span == window.beats() as nat * format.one(),
            window.beats() >= 1,
            format.one() > 0,
    ;
    if position.datum().negative {
        lemma_small_mod(0, span);
        let remainder = Datum::remainder(
            format,
            position.datum(),
            Binary64::from_whole(window.beats() as u64).datum(),
        );
        if remainder.magnitude > 0 {
            crate::rounding::decoding_preserves_order(0, remainder.magnitude as nat, 53);
        }
    }
}

/// A position before project beat zero has over whole windows what is left of a
/// window after the same position behind it.
pub proof fn positions_before_zero_count_back(position: Binary64, window: WindowLength)
    requires
        position.is_finite(),
        Binary64::zero().lt(position),
    ensures
        ({
            let width = Binary64::from_whole(window.beats() as u64);
            let after = position.rem_euclid(width);
            let before = position.neg().rem_euclid(width);
            if Binary64::zero().lt(after) {
                before == width.sub(after)
            } else {
                before.datum().value(Format::Binary64) == 0
            }
        }),
{
    reveal(Binary64::spec_rem_euclid);
    reveal(Binary64::spec_add);
    let format = Format::Binary64;
    let width = Binary64::from_whole(window.beats() as u64);
    lemma_width(window);
    lemma_rest_of_position(position, window);
    lemma_rest_of_position(position.neg(), window);
    lemma_pow2_pos(52);
    assert((53 - 1) as nat == 52);
    assert(crate::rounding::decoded_steps(0, 53) == 0);
    assert(position.neg().datum() == Datum {
        negative: true,
        magnitude: position.datum().magnitude,
    });
    let right = Datum::remainder(format, position.datum(), width.datum());
    let left = Datum::remainder(format, position.neg().datum(), width.datum());
    assert(left.magnitude == right.magnitude);
    assert(width.abs() == width);
    if right.magnitude > 0 {
        assert(Binary64::of(left).lt(Binary64::zero()));
        assert(Binary64::of(right).neg().datum() == left);
    }
}

/// A grid line lies at its share of the width, counted from the left; one that
/// would lie outside is held at the nearer edge.
pub proof fn grid_lines_lie_at_their_share(
    beat_offset: Binary64,
    window_beats: Binary64,
    width: Binary32,
)
    requires
        beat_offset.is_finite(),
        window_beats.is_finite(),
        Binary64::zero().lt(window_beats),
        width.is_finite(),
        Binary32::zero().le(width),
    ensures
        ({
            let place = beat_offset.div(window_beats).mul(width.to_double());
            let x = grid_x(beat_offset, window_beats, width);
            &&& Binary64::zero().le(place) && place.le(width.to_double()) ==> x
                == place.to_single()
            &&& place.lt(Binary64::zero()) ==> x == Binary64::zero().to_single()
            &&& Binary64::zero().le(width.to_double()) && width.to_double().lt(place) ==> x
                == width
        }),
{
    width.widening_is_undone();
    width.lemma_double_is_exact();
    Binary32::zero().lemma_double_is_exact();
    if width.max(Binary32::zero()) != width {
        assert(width.lt(Binary32::zero()));
    }
}

/// Transports are equal exactly when they tell the same, and tell nothing of the
/// same; numbers are compared as numbers.
pub proof fn equal_transports_tell_the_same(one: TransportInfo, other: TransportInfo)
    ensures
        vstd::std_specs::cmp::PartialEqSpec::eq_spec(&one, &other) <==> {
            &&& one.is_playing == other.is_playing
            &&& one.tempo_bpm is Some == other.tempo_bpm is Some
            &&& one.tempo_bpm is Some ==> one.tempo_bpm->0.le(other.tempo_bpm->0)
                && other.tempo_bpm->0.le(one.tempo_bpm->0)
            &&& one.song_pos_beats is Some == other.song_pos_beats is Some
            &&& one.song_pos_beats is Some ==> one.song_pos_beats->0.le(other.song_pos_beats->0)
                && other.song_pos_beats->0.le(one.song_pos_beats->0)
        },
{
}

} // verus!
