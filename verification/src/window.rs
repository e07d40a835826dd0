//! The selectable beat windows and the modes a snapshot is captured in.

use vstd::prelude::*;

verus! {

/// The closed set of beat-window lengths available in the editor.
#[derive(Clone, Copy, Debug, PartialEq, Eq, Structural)]
pub enum WindowLength {
    /// One quarter-note beat.
    OneBeat,
    /// Two quarter-note beats.
    TwoBeats,
    /// Four quarter-note beats, one bar in 4/4.
    FourBeats,
    /// Eight quarter-note beats, two bars in 4/4.
    EightBeats,
}

impl Default for WindowLength {
    fn default() -> (window: WindowLength)
        ensures
            window == WindowLength::DEFAULT,
    {
        WindowLength::OneBeat
    }
}

impl WindowLength {
    /// The default window used by every new instance.
    pub const DEFAULT: WindowLength = WindowLength::OneBeat;

    /// All selectable window lengths in menu order.
    pub const ALL: [WindowLength; 4] = [
        WindowLength::OneBeat,
        WindowLength::TwoBeats,
        WindowLength::FourBeats,
        WindowLength::EightBeats,
    ];

    /// The number of quarter-note beats in this window.
    pub open spec fn spec_beats(self) -> u32 {
        match self {
            WindowLength::OneBeat => 1,
            WindowLength::TwoBeats => 2,
            WindowLength::FourBeats => 4,
            WindowLength::EightBeats => 8,
        }
    }

    /// Return the number of quarter-note beats in this window.
    #[verifier::when_used_as_spec(spec_beats)]
    pub fn beats(self) -> (beats: u32)
        ensures
            beats == self.spec_beats(),
    {
        match self {
            WindowLength::OneBeat => 1,
            WindowLength::TwoBeats => 2,
            WindowLength::FourBeats => 4,
            WindowLength::EightBeats => 8,
        }
    }

    /// The exact user-facing label for this window.
    pub open spec fn label_text(self) -> Seq<char> {
        match self {
            WindowLength::OneBeat => "1:4"@,
            WindowLength::TwoBeats => "1:2"@,
            WindowLength::FourBeats => "1:1"@,
            WindowLength::EightBeats => "2:1"@,
        }
    }

    /// Return the exact user-facing label for this window.
    pub fn label(self) -> (label: &'static str)
        ensures
            label@ == self.label_text(),
    {
        match self {
            WindowLength::OneBeat => "1:4",
            WindowLength::TwoBeats => "1:2",
            WindowLength::FourBeats => "1:1",
            WindowLength::EightBeats => "2:1",
        }
    }

    /// The position of this window in [`WindowLength::ALL`].
    pub open spec fn spec_as_raw(self) -> u32 {
        match self {
            WindowLength::OneBeat => 0,
            WindowLength::TwoBeats => 1,
            WindowLength::FourBeats => 2,
            WindowLength::EightBeats => 3,
        }
    }

    /// Convert this closed domain to its shared-memory representation.
    #[verifier::when_used_as_spec(spec_as_raw)]
    pub fn as_raw(self) -> (raw: u32)
        ensures
            raw == self.spec_as_raw(),
    {
        match self {
            WindowLength::OneBeat => 0,
            WindowLength::TwoBeats => 1,
            WindowLength::FourBeats => 2,
            WindowLength::EightBeats => 3,
        }
    }

    /// The window that a representation stands for.
    pub open spec fn spec_from_raw(raw: u32) -> WindowLength {
        if raw == 1 {
            WindowLength::TwoBeats
        } else if raw == 2 {
            WindowLength::FourBeats
        } else if raw == 3 {
            WindowLength::EightBeats
        } else {
            WindowLength::OneBeat
        }
    }

    /// Convert a shared-memory representation, falling back to one beat when
    /// invalid.
    #[verifier::when_used_as_spec(spec_from_raw)]
    pub fn from_raw(raw: u32) -> (window: WindowLength)
        ensures
            window == WindowLength::spec_from_raw(raw),
    {
        match raw {
            1 => WindowLength::TwoBeats,
            2 => WindowLength::FourBeats,
            3 => WindowLength::EightBeats,
            _ => WindowLength::OneBeat,
        }
    }

    /// A window survives its shared-memory representation, and no two windows
    /// share one or have the same number of beats.
    pub proof fn raw_round_trips(self, other: WindowLength)
        ensures
            WindowLength::from_raw(self.as_raw()) == self,
            self.as_raw() == other.as_raw() ==> self == other,
            self.beats() == other.beats() ==> self == other,
            WindowLength::ALL@[self.as_raw() as int] == self,
    {
    }
}

/// The source of a published waveform snapshot.
#[derive(Clone, Copy, Debug, PartialEq, Eq, Structural)]
pub enum SnapshotMode {
    /// No complete window has been published yet.
    Empty,
    /// A complete selected beat interval aligned to host beats.
    Synced,
    /// A rolling selected beat-sized window with no host musical position.
    UnsyncedTempo,
    /// A bounded 500 ms rolling window used without a valid host tempo.
    UnsyncedFallback,
}

impl Default for SnapshotMode {
    fn default() -> (mode: SnapshotMode)
        ensures
            mode == SnapshotMode::Empty,
    {
        SnapshotMode::Empty
    }
}

impl SnapshotMode {
    /// The shared-memory representation of this mode.
    pub open spec fn spec_as_raw(self) -> u32 {
        match self {
            SnapshotMode::Empty => 0,
            SnapshotMode::Synced => 1,
            SnapshotMode::UnsyncedTempo => 2,
            SnapshotMode::UnsyncedFallback => 3,
        }
    }

    /// Convert this mode to its shared-memory representation.
    #[verifier::when_used_as_spec(spec_as_raw)]
    pub fn as_raw(self) -> (raw: u32)
        ensures
            raw == self.spec_as_raw(),
    {
        match self {
            SnapshotMode::Empty => 0,
            SnapshotMode::Synced => 1,
            SnapshotMode::UnsyncedTempo => 2,
            SnapshotMode::UnsyncedFallback => 3,
        }
    }

    /// The mode that a representation stands for.
    pub open spec fn spec_from_raw(raw: u32) -> SnapshotMode {
        if raw == 1 {
            SnapshotMode::Synced
        } else if raw == 2 {
            SnapshotMode::UnsyncedTempo
        } else if raw == 3 {
            SnapshotMode::UnsyncedFallback
        } else {
            SnapshotMode::Empty
        }
    }

    /// Convert a shared-memory representation; an invalid one is empty.
    #[verifier::when_used_as_spec(spec_from_raw)]
    pub fn from_raw(raw: u32) -> (mode: SnapshotMode)
        ensures
            mode == SnapshotMode::spec_from_raw(raw),
    {
        match raw {
            1 => SnapshotMode::Synced,
            2 => SnapshotMode::UnsyncedTempo,
            3 => SnapshotMode::UnsyncedFallback,
            _ => SnapshotMode::Empty,
        }
    }

    /// A mode survives its shared-memory representation.
    pub proof fn raw_round_trips(self)
        ensures
            SnapshotMode::from_raw(self.as_raw()) == self,
    {
    }
}

/// A representation that no window or no mode has stands for one beat or for an
/// empty snapshot.
pub proof fn other_representations_fall_back(raw: u32)
    requires
        raw > 3,
    ensures
        WindowLength::from_raw(raw) == WindowLength::OneBeat,
        SnapshotMode::from_raw(raw) == SnapshotMode::Empty,
{
}

/// Windows are one, two, four and eight quarter-note beats long, and are called
/// by their share of a bar.
pub proof fn windows_double_in_length(window: WindowLength)
    ensures
        window == WindowLength::OneBeat ==> window.beats() == 1 && window.label_text() == "1:4"@,
        window == WindowLength::TwoBeats ==> window.beats() == 2 && window.label_text() == "1:2"@,
        window == WindowLength::FourBeats ==> window.beats() == 4 && window.label_text() == "1:1"@,
        window == WindowLength::EightBeats ==> window.beats() == 8 && window.label_text() == "2:1"@,
{
}

} // verus!
