//! The waveform widget and its interaction.

use crate::binary::Binary32;
use crate::chart::pointer_offset;
use crate::display::{waveform_source_for_view, DrawnWaveform, StatusPresentation};
use crate::editor::EditorMessage;
use crate::envelope::{EnvelopePoint, ENVELOPE_BINS};
use crate::geometry::{Point, Rect};
use crate::offset::{normalize_waveform_offset, WaveformOffsetDrag};
use crate::view::WaveformView;
use crate::window::WindowLength;
use vstd::prelude::*;

verus! {

/// The modifier keys held during a pointer gesture.
#[derive(Clone, Copy, Debug, PartialEq, Eq, Structural)]
pub struct PointerModifiers {
    /// The command key.
    pub command: bool,
    /// The shift key.
    pub shift: bool,
    /// The alternate key.
    pub alt: bool,
}

impl PointerModifiers {
    /// Exactly the keys that the offset gestures take.
    pub open spec fn spec_offset_gesture(self) -> bool {
        self.command && self.shift && !self.alt
    }

    /// Whether exactly the keys that the offset gestures take are held.
    #[verifier::when_used_as_spec(spec_offset_gesture)]
    pub fn offset_gesture(self) -> (exact: bool)
        ensures
            exact == self.spec_offset_gesture(),
    {
        self.command && self.shift && !self.alt
    }
}

/// Where a pointer is.
#[derive(Clone, Copy, Debug, PartialEq, Eq, Structural)]
pub struct PointerTarget {
    /// The position.
    pub position: Point,
    /// Whether it is over the widget.
    pub over_widget: bool,
    /// Whether it is over the chart.
    pub over_chart: bool,
}

/// An input of the waveform widget.
#[derive(Clone, Copy, Debug, PartialEq, Eq, Structural)]
pub enum WaveformInput {
    /// The pointer moved.
    PointerMove {
        /// Where it is.
        target: PointerTarget,
    },
    /// The modifier keys changed.
    PointerModifiersChanged {
        /// The keys now held.
        modifiers: PointerModifiers,
    },
    /// A button was clicked twice.
    PointerDoubleClick {
        /// Where the pointer is.
        target: PointerTarget,
        /// Whether it was the primary button.
        primary: bool,
        /// The keys held.
        modifiers: PointerModifiers,
    },
    /// A button was pressed.
    PointerPress {
        /// Where the pointer is.
        target: PointerTarget,
        /// Whether it was the primary button.
        primary: bool,
        /// The keys held.
        modifiers: PointerModifiers,
    },
    /// A button was released, or what it held was dropped.
    PointerRelease {
        /// Where the pointer is.
        target: PointerTarget,
        /// Whether it was the primary button.
        primary: bool,
    },
    /// The focus came or went.
    FocusChanged(bool),
    /// Anything else.
    Other,
}

/// The retained waveform widget.
#[derive(Clone, Copy, Debug)]
pub struct WaveformWidget {
    /// The view on display.
    pub view: WaveformView,
    /// The horizontal offset, as a share of a window.
    pub waveform_offset: Binary32,
    /// Whether the command key is held.
    pub command_held: bool,
    /// Whether the shift key is held.
    pub shift_held: bool,
    /// The drag in progress.
    pub active_offset: Option<WaveformOffsetDrag>,
    /// Whether the pointer is over the chart.
    pub chart_hovered: bool,
    /// Whether the pointer is over the widget.
    pub hovered: bool,
    /// Whether the primary button is held on the widget.
    pub pressed: bool,
    /// Whether the widget has the focus.
    pub focused: bool,
    /// The columns drawn before.
    pub retained_envelope: [EnvelopePoint; ENVELOPE_BINS],
    /// How many of them were drawn.
    pub retained_waveform_bins: usize,
}

impl WaveformWidget {
    /// No more columns are retained than there are.
    pub open spec fn wf(self) -> bool {
        self.retained_waveform_bins <= ENVELOPE_BINS
    }

    /// The columns drawn before.
    pub open spec fn retained(self) -> DrawnWaveform {
        DrawnWaveform { bins: self.retained_waveform_bins, envelope: self.retained_envelope@ }
    }

    /// The columns to draw: those of the view over those drawn before.
    pub open spec fn drawn(self) -> DrawnWaveform {
        match self.view.drawn_waveform() {
            Some(current) => DrawnWaveform {
                bins: if self.retained_waveform_bins < current.bins {
                    current.bins
                } else {
                    self.retained_waveform_bins
                },
                envelope: crate::display::overlaid(
                    self.retained_envelope@,
                    current.bins,
                    current.envelope,
                ),
            },
            None => self.retained(),
        }
    }

    /// Create a widget without interaction.
    pub fn new(view: WaveformView) -> (widget: WaveformWidget)
        ensures
            widget.wf(),
            widget.view == view,
            widget.interaction() == (Interaction {
                waveform_offset: normalize_waveform_offset(Binary32::zero()),
                command_held: false,
                shift_held: false,
                active_offset: None,
                chart_hovered: false,
                hovered: false,
                pressed: false,
                focused: false,
            }),
            widget.retained() == view.drawn_or_nothing(),
    {
        WaveformWidget::new_with_interaction(view, Binary32::zero(), false, false, None)
    }

    /// Create a widget in the middle of an interaction.
    pub fn new_with_interaction(
        view: WaveformView,
        waveform_offset: Binary32,
        command_held: bool,
        shift_held: bool,
        active_offset: Option<WaveformOffsetDrag>,
    ) -> (widget: WaveformWidget)
        ensures
            widget.wf(),
            widget.view == view,
            widget.interaction() == (Interaction {
                waveform_offset: normalize_waveform_offset(waveform_offset),
                command_held,
                shift_held,
                active_offset,
                chart_hovered: false,
                hovered: false,
                pressed: false,
                focused: false,
            }),
            widget.retained() == view.drawn_or_nothing(),
    {
        let (retained_waveform_bins, retained_envelope): (usize, [EnvelopePoint; ENVELOPE_BINS]) =
            match waveform_source_for_view(view) {
            Some(source) => source,
            None => {
                let flat: [EnvelopePoint; ENVELOPE_BINS] = [EnvelopePoint::flat(); ENVELOPE_BINS];
                assert(flat@ =~= crate::publication::flat_envelope());
                (0, flat)
            },
        };
        WaveformWidget {
            view,
            waveform_offset: normalize_waveform_offset(waveform_offset),
            command_held,
            shift_held,
            active_offset,
            chart_hovered: false,
            hovered: false,
            pressed: false,
            focused: false,
            retained_envelope,
            retained_waveform_bins,
        }
    }

    /// Return the columns to draw and how many of them.
    pub fn waveform_for_paint(&self) -> (drawn: (usize, [EnvelopePoint; ENVELOPE_BINS]))
        requires
            self.wf(),
        ensures
            self.drawn() == (DrawnWaveform { bins: drawn.0, envelope: drawn.1@ }),
            drawn.0 <= ENVELOPE_BINS,
    {
        let mut envelope: [EnvelopePoint; ENVELOPE_BINS] = self.retained_envelope;
        let mut drawn_bins: usize = self.retained_waveform_bins;
        if let Some((current_bins, current_envelope)) = waveform_source_for_view(self.view) {
            crate::display::overlay(&mut envelope, current_bins, &current_envelope);
            if drawn_bins < current_bins {
                drawn_bins = current_bins;
            }
        }
        (drawn_bins, envelope)
    }

    /// Whether the offset gestures are armed under the pointer.
    #[verifier::when_used_as_spec(spec_offset_hovered)]
    pub fn offset_hovered(&self) -> (armed: bool)
        ensures
            armed == self.spec_offset_hovered(),
    {
        self.chart_hovered && self.command_held && self.shift_held
    }

    /// The offset gestures are armed under the pointer.
    pub open spec fn spec_offset_hovered(&self) -> bool {
        self.chart_hovered && self.command_held && self.shift_held
    }

    /// Return the text of the status line.
    pub fn status_text(&self) -> (text: String)
        ensures
            text@ == self.view.status_presentation().label(),
    {
        self.view.status_presentation().text()
    }

    /// Whether the window being captured is on display.
    pub fn showing_live_preview(&self) -> (live: bool)
        ensures
            live == self.view.showing_live_preview(),
    {
        self.view.showing_live_preview()
    }

    /// Whether a window that is no longer captured is on display.
    pub fn showing_retained_preview(&self) -> (retained: bool)
        ensures
            retained == self.view.showing_retained_preview(),
    {
        self.view.showing_retained_preview()
    }

    /// Return the window length of what is on display.
    pub fn displayed_window(&self) -> (window: WindowLength)
        ensures
            window == self.view.displayed_window(),
    {
        self.view.displayed_window()
    }

    /// Return the state that the status line announces.
    pub fn status_presentation(&self) -> (status: StatusPresentation)
        ensures
            status == self.view.status_presentation(),
    {
        self.view.status_presentation()
    }
}

impl WaveformView {
    /// The columns of what is on display, none when there are none.
    pub open spec fn drawn_or_nothing(self) -> DrawnWaveform {
        match self.drawn_waveform() {
            Some(drawn) => drawn,
            None => DrawnWaveform { bins: 0, envelope: crate::publication::flat_envelope() },
        }
    }
}

/// Everything of a widget that its inputs change.
#[derive(Clone, Copy, Debug)]
pub struct Interaction {
    /// The horizontal offset.
    pub waveform_offset: Binary32,
    /// Whether the command key is held.
    pub command_held: bool,
    /// Whether the shift key is held.
    pub shift_held: bool,
    /// The drag in progress.
    pub active_offset: Option<WaveformOffsetDrag>,
    /// Whether the pointer is over the chart.
    pub chart_hovered: bool,
    /// Whether the pointer is over the widget.
    pub hovered: bool,
    /// Whether the primary button is held on the widget.
    pub pressed: bool,
    /// Whether the widget has the focus.
    pub focused: bool,
}

impl WaveformWidget {
    /// Everything of the widget that its inputs change.
    pub open spec fn interaction(self) -> Interaction {
        Interaction {
            waveform_offset: self.waveform_offset,
            command_held: self.command_held,
            shift_held: self.shift_held,
            active_offset: self.active_offset,
            chart_hovered: self.chart_hovered,
            hovered: self.hovered,
            pressed: self.pressed,
            focused: self.focused,
        }
    }

    /// How far a pointer has moved since a drag started.
    pub open spec fn drag_delta(bounds: Rect, target: PointerTarget, drag: WaveformOffsetDrag)
        -> Binary32 {
        pointer_offset(bounds, target.position).sub(drag.start_pointer_x)
    }
}

impl Interaction {
    /// The interaction after an input.
    pub open spec fn after(self, input: WaveformInput) -> Interaction {
        match input {
            WaveformInput::PointerMove { target } => Interaction {
                hovered: target.over_widget,
                chart_hovered: target.over_chart,
                ..self
            },
            WaveformInput::PointerDoubleClick { target, primary, modifiers } => {
                if primary && target.over_chart && modifiers.offset_gesture() {
                    Interaction {
                        hovered: true,
                        pressed: false,
                        chart_hovered: true,
                        active_offset: None,
                        ..self
                    }
                } else {
                    self
                }
            },
            WaveformInput::PointerPress { target, primary, modifiers } => {
                if primary && target.over_chart && modifiers.offset_gesture() {
                    Interaction { hovered: true, pressed: true, chart_hovered: true, ..self }
                } else {
                    self
                }
            },
            WaveformInput::PointerRelease { target, primary } => {
                if primary {
                    Interaction {
                        pressed: false,
                        hovered: target.over_widget,
                        chart_hovered: target.over_chart,
                        ..self
                    }
                } else {
                    self
                }
            },
            WaveformInput::FocusChanged(focused) => Interaction { focused, ..self },
            _ => self,
        }
    }

    /// The message that an input sends to the editor.
    pub open spec fn message(self, bounds: Rect, input: WaveformInput) -> Option<EditorMessage> {
        match input {
            WaveformInput::PointerMove { target } => match self.active_offset {
                Some(drag) => Some(
                    EditorMessage::DragWaveformOffset {
                        delta: WaveformWidget::drag_delta(bounds, target, drag),
                    },
                ),
                None => None,
            },
            WaveformInput::PointerModifiersChanged { modifiers } => {
                if self.command_held != modifiers.command || self.shift_held != modifiers.shift {
                    Some(
                        EditorMessage::SetWaveformModifiers {
                            command_held: modifiers.command,
                            shift_held: modifiers.shift,
                        },
                    )
                } else {
                    None
                }
            },
            WaveformInput::PointerDoubleClick { target, primary, modifiers } => {
                if primary && target.over_chart && modifiers.offset_gesture() {
                    Some(EditorMessage::ResetWaveformOffset)
                } else {
                    None
                }
            },
            WaveformInput::PointerPress { target, primary, modifiers } => {
                if primary && target.over_chart && modifiers.offset_gesture() {
                    Some(
                        EditorMessage::BeginWaveformOffset {
                            pointer_x: pointer_offset(bounds, target.position),
                        },
                    )
                } else {
                    None
                }
            },
            WaveformInput::PointerRelease { target, primary } => match self.active_offset {
                Some(drag) if primary => Some(
                    EditorMessage::EndWaveformOffset {
                        delta: WaveformWidget::drag_delta(bounds, target, drag),
                    },
                ),
                _ => None,
            },
            WaveformInput::FocusChanged(focused) => {
                if !focused && self.active_offset is Some {
                    Some(EditorMessage::CancelWaveformOffset)
                } else {
                    None
                }
            },
            WaveformInput::Other => None,
        }
    }
}

impl WaveformWidget {
    /// Take an input in and return what it asks of the editor.
    pub fn handle_input(&mut self, bounds: Rect, input: WaveformInput) -> (message: Option<
        EditorMessage,
    >)
        ensures
            message == old(self).interaction().message(bounds, input),
            final(self).interaction() == old(self).interaction().after(input),
            final(self).view == old(self).view,
            final(self).retained_envelope == old(self).retained_envelope,
            final(self).retained_waveform_bins == old(self).retained_waveform_bins,
    {
        match input {
            WaveformInput::PointerMove { target } => {
                self.hovered = target.over_widget;
                self.chart_hovered = target.over_chart;
                match self.active_offset {
                    Some(drag) => Some(
                        EditorMessage::DragWaveformOffset {
                            delta: pointer_offset(bounds, target.position).sub(
                                drag.start_pointer_x,
                            ),
                        },
                    ),
                    None => None,
                }
            },
            WaveformInput::PointerModifiersChanged { modifiers } => {
                if self.command_held != modifiers.command || self.shift_held != modifiers.shift {
                    Some(
                        EditorMessage::SetWaveformModifiers {
                            command_held: modifiers.command,
                            shift_held: modifiers.shift,
                        },
                    )
                } else {
                    None
                }
            },
            WaveformInput::PointerDoubleClick { target, primary, modifiers } => {
                if primary && target.over_chart && modifiers.offset_gesture() {
                    self.hovered = true;
                    self.pressed = false;
                    self.chart_hovered = true;
                    self.active_offset = None;
                    Some(EditorMessage::ResetWaveformOffset)
                } else {
                    None
                }
            },
            WaveformInput::PointerPress { target, primary, modifiers } => {
                if primary && target.over_chart && modifiers.offset_gesture() {
                    self.hovered = true;
                    self.pressed = true;
                    self.chart_hovered = true;
                    Some(
                        EditorMessage::BeginWaveformOffset {
                            pointer_x: pointer_offset(bounds, target.position),
                        },
                    )
                } else {
                    None
                }
            },
            WaveformInput::PointerRelease { target, primary } => {
                if !primary {
                    return None;
                }
                self.pressed = false;
                self.hovered = target.over_widget;
                self.chart_hovered = target.over_chart;
                match self.active_offset {
                    Some(drag) => Some(
                        EditorMessage::EndWaveformOffset {
                            delta: pointer_offset(bounds, target.position).sub(
                                drag.start_pointer_x,
                            ),
                        },
                    ),
                    None => None,
                }
            },
            WaveformInput::FocusChanged(focused) => {
                self.focused = focused;
                if !focused && self.active_offset.is_some() {
                    Some(EditorMessage::CancelWaveformOffset)
                } else {
                    None
                }
            },
            WaveformInput::Other => None,
        }
    }

    /// Carry the pointer state and the drawn columns over from the widget that
    /// this one replaces.
    pub fn synchronize_from_previous(&mut self, previous: &WaveformWidget)
        requires
            old(self).wf(),
            previous.wf(),
        ensures
            final(self).wf(),
            final(self).view == old(self).view,
            final(self).interaction() == (Interaction {
                hovered: previous.hovered,
                pressed: previous.pressed,
                focused: previous.focused,
                chart_hovered: previous.chart_hovered,
                ..old(self).interaction()
            }),
            final(self).retained() == if previous.drawn().bins > 0 {
                previous.drawn()
            } else {
                old(self).retained()
            },
            final(self).drawn().bins >= previous.drawn().bins,
    {
        self.hovered = previous.hovered;
        self.pressed = previous.pressed;
        self.focused = previous.focused;
        self.chart_hovered = previous.chart_hovered;
        let (retained_waveform_bins, retained_envelope): (usize, [EnvelopePoint; ENVELOPE_BINS]) =
            previous.waveform_for_paint();
        if retained_waveform_bins > 0 {
            self.retained_waveform_bins = retained_waveform_bins;
            self.retained_envelope = retained_envelope;
        }
    }
}

impl WaveformWidget {
    /// The columns of the view are drawn over those drawn before, as far as they
    /// reach; columns beyond stay as they were drawn, and no column is lost.
    pub proof fn columns_of_the_view_replace_those_drawn_before(self)
        requires
            self.wf(),
        ensures
            ({
                let drawn = self.drawn();
                match self.view.drawn_waveform() {
                    Some(current) => {
                        &&& drawn.bins >= current.bins && drawn.bins >= self.retained_waveform_bins
                        &&& drawn.bins == current.bins || drawn.bins == self.retained_waveform_bins
                        &&& drawn.envelope.len() == 1024
                        &&& forall|bin: int|
                            0 <= bin < current.bins && bin < 1024 ==> #[trigger] drawn.envelope[bin]
                                == current.envelope[bin]
                        &&& forall|bin: int|
                            current.bins <= bin < 1024 ==> #[trigger] drawn.envelope[bin]
                                == self.retained_envelope@[bin]
                    },
                    None => drawn.bins == self.retained_waveform_bins && drawn.envelope
                        == self.retained_envelope@,
                }
            }),
    {
    }
}

/// The waveform is taken hold of, or brought back to true zero, with the primary
/// button over the chart and with exactly the command and the shift key held;
/// any other press or double click asks for nothing and changes nothing.
pub proof fn gestures_take_their_keys_and_the_chart(
    interaction: Interaction,
    bounds: Rect,
    target: PointerTarget,
    primary: bool,
    modifiers: PointerModifiers,
)
    ensures
        ({
            let press = WaveformInput::PointerPress { target, primary, modifiers };
            let twice = WaveformInput::PointerDoubleClick { target, primary, modifiers };
            let meant = primary && target.over_chart && modifiers.command && modifiers.shift
                && !modifiers.alt;
            if meant {
                &&& interaction.message(bounds, press) == Some(
                    EditorMessage::BeginWaveformOffset {
                        pointer_x: pointer_offset(bounds, target.position),
                    },
                )
                &&& interaction.message(bounds, twice) == Some(EditorMessage::ResetWaveformOffset)
                &&& interaction.after(press).pressed
                &&& interaction.after(twice).active_offset is None
                &&& !interaction.after(twice).pressed
            } else {
                &&& interaction.message(bounds, press) is None
                &&& interaction.message(bounds, twice) is None
                &&& interaction.after(press) == interaction
                &&& interaction.after(twice) == interaction
            }
        }),
{
}

/// A drag in progress follows the pointer: every move and the release ask for
/// the distance from where it started. Without a drag neither asks for
/// anything, and only the loss of the focus gives a drag up.
pub proof fn drags_follow_the_pointer(interaction: Interaction, bounds: Rect, target: PointerTarget)
    ensures
        ({
            let moved = interaction.message(bounds, WaveformInput::PointerMove { target });
            let released = interaction.message(
                bounds,
                WaveformInput::PointerRelease { target, primary: true },
            );
            let other = interaction.message(
                bounds,
                WaveformInput::PointerRelease { target, primary: false },
            );
            let left = interaction.message(bounds, WaveformInput::FocusChanged(false));
            let back = interaction.message(bounds, WaveformInput::FocusChanged(true));
            &&& match interaction.active_offset {
                Some(drag) => {
                    let delta = pointer_offset(bounds, target.position).sub(drag.start_pointer_x);
                    &&& moved == Some(EditorMessage::DragWaveformOffset { delta })
                    &&& released == Some(EditorMessage::EndWaveformOffset { delta })
                    &&& left == Some(EditorMessage::CancelWaveformOffset)
                },
                None => moved is None && released is None && left is None,
            }
            &&& other is None
            &&& back is None
            &&& interaction.message(bounds, WaveformInput::Other) is None
        }),
        ({
            let moved = interaction.after(WaveformInput::PointerMove { target });
            &&& moved.hovered == target.over_widget
            &&& moved.chart_hovered == target.over_chart
            &&& moved.waveform_offset == interaction.waveform_offset
            &&& moved.active_offset == interaction.active_offset
        }),
{
}

/// A change of the command or the shift key is told to the editor as it is; the
/// other key alone is not.
pub proof fn changed_keys_are_told(
    interaction: Interaction,
    bounds: Rect,
    modifiers: PointerModifiers,
)
    ensures
        ({
            let message = interaction.message(
                bounds,
                WaveformInput::PointerModifiersChanged { modifiers },
            );
            if modifiers.command == interaction.command_held && modifiers.shift
                == interaction.shift_held {
                message is None
            } else {
                message == Some(
                    EditorMessage::SetWaveformModifiers {
                        command_held: modifiers.command,
                        shift_held: modifiers.shift,
                    },
                )
            }
        }),
{
}

/// Letting the primary button go ends the press and leaves the pointer where it
/// is; another button changes nothing. The focus comes and goes by itself, and
/// neither the keys nor anything else change what the widget holds.
pub proof fn releases_and_focus_change_their_own(
    interaction: Interaction,
    target: PointerTarget,
    focused: bool,
    modifiers: PointerModifiers,
)
    ensures
        ({
            let released = interaction.after(
                WaveformInput::PointerRelease { target, primary: true },
            );
            &&& !released.pressed
            &&& released.hovered == target.over_widget
            &&& released.chart_hovered == target.over_chart
            &&& released.active_offset == interaction.active_offset
            &&& released.waveform_offset == interaction.waveform_offset
            &&& released.focused == interaction.focused
        }),
        interaction.after(WaveformInput::PointerRelease { target, primary: false }) == interaction,
        interaction.after(WaveformInput::FocusChanged(focused)) == (Interaction {
            focused,
            ..interaction
        }),
        interaction.after(WaveformInput::PointerModifiersChanged { modifiers }) == interaction,
        interaction.after(WaveformInput::Other) == interaction,
{
}

} // verus!
