//! The editor's state and its transitions.

use crate::binary::{Binary32, Binary64};
use crate::display::offset_sample_count;
use crate::offset::{format_waveform_offset, normalize_waveform_offset, WaveformOffsetDrag};
use crate::publication::{PublicationState, WaveformPublication};
use crate::view::WaveformView;
use crate::waveform::{Interaction, WaveformWidget};
use crate::window::WindowLength;
use vstd::prelude::*;

verus! {

/// A change that the editor is asked for. `==` compares the numbers.
#[derive(Clone, Copy, Debug)]
pub enum EditorMessage {
    /// Open or close the window menu.
    ToggleWindowDropdown,
    /// Select a window.
    SelectWindow(WindowLength),
    /// Open or close the help panel.
    ToggleHelp,
    /// Close whatever is open.
    DismissTransient,
    /// Take note of the modifier keys.
    SetWaveformModifiers {
        /// Whether the command key is held.
        command_held: bool,
        /// Whether the shift key is held.
        shift_held: bool,
    },
    /// Start to drag the waveform.
    BeginWaveformOffset {
        /// Where the pointer is, as a share of the chart's width.
        pointer_x: Binary32,
    },
    /// Drag the waveform on.
    DragWaveformOffset {
        /// How far from where the drag started.
        delta: Binary32,
    },
    /// Finish a drag.
    EndWaveformOffset {
        /// How far from where the drag started.
        delta: Binary32,
    },
    /// Give a drag up.
    CancelWaveformOffset,
    /// Bring the waveform back to true zero.
    ResetWaveformOffset,
}

impl EditorMessage {
    /// Both messages ask for the same change.
    pub open spec fn spec_same(self, other: EditorMessage) -> bool {
        match (self, other) {
            (
                EditorMessage::BeginWaveformOffset { pointer_x: one },
                EditorMessage::BeginWaveformOffset { pointer_x: two },
            ) => one.equals(two),
            (
                EditorMessage::DragWaveformOffset { delta: one },
                EditorMessage::DragWaveformOffset { delta: two },
            ) => one.equals(two),
            (
                EditorMessage::EndWaveformOffset { delta: one },
                EditorMessage::EndWaveformOffset { delta: two },
            ) => one.equals(two),
            (EditorMessage::BeginWaveformOffset { .. }, _) => false,
            (EditorMessage::DragWaveformOffset { .. }, _) => false,
            (EditorMessage::EndWaveformOffset { .. }, _) => false,
            _ => self == other,
        }
    }
}

impl PartialEq for EditorMessage {
    fn eq(&self, other: &EditorMessage) -> (same: bool) {
        match (*self, *other) {
            (
                EditorMessage::BeginWaveformOffset { pointer_x: one },
                EditorMessage::BeginWaveformOffset { pointer_x: two },
            ) => one.equals(two),
            (
                EditorMessage::DragWaveformOffset { delta: one },
                EditorMessage::DragWaveformOffset { delta: two },
            ) => one.equals(two),
            (
                EditorMessage::EndWaveformOffset { delta: one },
                EditorMessage::EndWaveformOffset { delta: two },
            ) => one.equals(two),
            (EditorMessage::SelectWindow(one), EditorMessage::SelectWindow(two)) => one == two,
            (
                EditorMessage::SetWaveformModifiers {
                    command_held: one_command,
                    shift_held: one_shift,
                },
                EditorMessage::SetWaveformModifiers {
                    command_held: two_command,
                    shift_held: two_shift,
                },
            ) => one_command == two_command && one_shift == two_shift,
            (EditorMessage::ToggleWindowDropdown, EditorMessage::ToggleWindowDropdown) => true,
            (EditorMessage::ToggleHelp, EditorMessage::ToggleHelp) => true,
            (EditorMessage::DismissTransient, EditorMessage::DismissTransient) => true,
            (EditorMessage::CancelWaveformOffset, EditorMessage::CancelWaveformOffset) => true,
            (EditorMessage::ResetWaveformOffset, EditorMessage::ResetWaveformOffset) => true,
            _ => false,
        }
    }
}

impl vstd::std_specs::cmp::PartialEqSpecImpl for EditorMessage {
    open spec fn obeys_eq_spec() -> bool {
        true
    }

    open spec fn eq_spec(&self, other: &EditorMessage) -> bool {
        self.spec_same(*other)
    }
}

/// Preferred logical width of the embedded editor.
pub const WINDOW_WIDTH: u32 = 960;

/// Preferred logical height of the embedded editor.
pub const WINDOW_HEIGHT: u32 = 600;

/// The identity of the window menu's trigger.
pub const WINDOW_DROPDOWN_WIDGET_ID: u64 = 0x5741_5645_0000_0001;

/// The identity of the help button.
pub const WINDOW_HELP_BUTTON_WIDGET_ID: u64 = 0x5741_5645_0000_0002;

/// The identity of the offset readout.
pub const WAVEFORM_OFFSET_READOUT_WIDGET_ID: u64 = 0x5741_5645_0000_0003;

/// The identity of the waveform.
pub const WAVEFORM_WIDGET_ID: u64 = 0x5741_5645_0000_0004;

/// Return the preferred logical editor size used by the host callbacks.
pub fn preferred_window_size() -> (size: (u32, u32))
    ensures
        size == (960u32, 600u32),
{
    (WINDOW_WIDTH, WINDOW_HEIGHT)
}

/// The retained editor's state.
#[derive(Clone, Copy, Debug)]
pub struct EditorState {
    /// The last coherent view.
    pub view: WaveformView,
    /// The selected window.
    pub selected_window: WindowLength,
    /// Whether the window menu is open.
    pub window_dropdown_open: bool,
    /// Whether the help panel is open.
    pub help_open: bool,
    /// The horizontal offset of the waveform, as a share of a window.
    pub waveform_offset: Binary32,
    /// Whether the command key is held.
    pub waveform_command_held: bool,
    /// Whether the shift key is held.
    pub waveform_shift_held: bool,
    /// The drag in progress.
    pub active_waveform_offset: Option<WaveformOffsetDrag>,
}

impl EditorState {
    /// The state with the waveform at an offset.
    pub open spec fn with_offset(self, offset: Binary32) -> EditorState {
        EditorState { waveform_offset: normalize_waveform_offset(offset), ..self }
    }

    /// The state after a message.
    pub open spec fn after(self, message: EditorMessage) -> EditorState {
        match message {
            EditorMessage::ToggleWindowDropdown => EditorState {
                window_dropdown_open: !self.window_dropdown_open,
                help_open: false,
                ..self
            },
            EditorMessage::SelectWindow(window) => EditorState {
                selected_window: window,
                window_dropdown_open: false,
                help_open: false,
                ..self
            },
            EditorMessage::ToggleHelp => EditorState {
                help_open: !self.help_open,
                window_dropdown_open: false,
                ..self
            },
            EditorMessage::DismissTransient => EditorState {
                window_dropdown_open: false,
                help_open: false,
                ..self
            },
            EditorMessage::SetWaveformModifiers { command_held, shift_held } => EditorState {
                waveform_command_held: command_held,
                waveform_shift_held: shift_held,
                active_waveform_offset: None,
                ..self
            },
            EditorMessage::BeginWaveformOffset { pointer_x } => EditorState {
                waveform_command_held: true,
                waveform_shift_held: true,
                active_waveform_offset: Some(
                    WaveformOffsetDrag {
                        origin_offset: self.waveform_offset,
                        start_pointer_x: pointer_x,
                    },
                ),
                ..self
            },
            EditorMessage::DragWaveformOffset { delta } => match self.active_waveform_offset {
                Some(drag) => self.with_offset(drag.origin_offset.add(delta)),
                None => self,
            },
            EditorMessage::EndWaveformOffset { delta } => match self.active_waveform_offset {
                Some(drag) => EditorState { active_waveform_offset: None, ..self }.with_offset(
                    drag.origin_offset.add(delta),
                ),
                None => self,
            },
            EditorMessage::CancelWaveformOffset => match self.active_waveform_offset {
                Some(drag) => EditorState { active_waveform_offset: None, ..self }.with_offset(
                    drag.origin_offset,
                ),
                None => self,
            },
            EditorMessage::ResetWaveformOffset => EditorState {
                active_waveform_offset: None,
                ..self
            }.with_offset(Binary32::zero()),
        }
    }

    /// Create the state of a new editor.
    pub fn new() -> (state: EditorState)
        ensures
            state.view.shows(PublicationState::empty().presentation()),
            state.selected_window == WindowLength::DEFAULT,
            !state.window_dropdown_open,
            !state.help_open,
            state.waveform_offset == Binary32::zero(),
            !state.waveform_command_held,
            !state.waveform_shift_held,
            state.active_waveform_offset is None,
    {
        EditorState {
            view: WaveformView::new(),
            selected_window: WindowLength::OneBeat,
            window_dropdown_open: false,
            help_open: false,
            waveform_offset: Binary32::zero(),
            waveform_command_held: false,
            waveform_shift_held: false,
            active_waveform_offset: None,
        }
    }

    fn set_waveform_offset(&mut self, offset: Binary32)
        ensures
            *final(self) == old(self).with_offset(offset),
    {
        self.waveform_offset = normalize_waveform_offset(offset);
    }

    /// Take a message in. The window to select in the shared publication is
    /// returned, when there is one.
    pub fn reduce(&mut self, message: EditorMessage) -> (selected: Option<WindowLength>)
        ensures
            *final(self) == old(self).after(message),
            selected == match message {
                EditorMessage::SelectWindow(window) => Some(window),
                _ => None,
            },
    {
        match message {
            EditorMessage::ToggleWindowDropdown => {
                self.window_dropdown_open = !self.window_dropdown_open;
                self.help_open = false;
            },
            EditorMessage::SelectWindow(window) => {
                self.selected_window = window;
                self.window_dropdown_open = false;
                self.help_open = false;
                return Some(window);
            },
            EditorMessage::ToggleHelp => {
                self.help_open = !self.help_open;
                self.window_dropdown_open = false;
            },
            EditorMessage::DismissTransient => {
                self.window_dropdown_open = false;
                self.help_open = false;
            },
            EditorMessage::SetWaveformModifiers { command_held, shift_held } => {
                self.waveform_command_held = command_held;
                self.waveform_shift_held = shift_held;
                self.active_waveform_offset = None;
            },
            EditorMessage::BeginWaveformOffset { pointer_x } => {
                self.waveform_command_held = true;
                self.waveform_shift_held = true;
                self.active_waveform_offset = Some(
                    WaveformOffsetDrag {
                        origin_offset: self.waveform_offset,
                        start_pointer_x: pointer_x,
                    },
                );
            },
            EditorMessage::DragWaveformOffset { delta } => {
                if let Some(drag) = self.active_waveform_offset {
                    self.set_waveform_offset(drag.origin_offset.add(delta));
                }
            },
            EditorMessage::EndWaveformOffset { delta } => {
                if let Some(drag) = self.active_waveform_offset {
                    self.active_waveform_offset = None;
                    self.set_waveform_offset(drag.origin_offset.add(delta));
                }
            },
            EditorMessage::CancelWaveformOffset => {
                if let Some(drag) = self.active_waveform_offset {
                    self.active_waveform_offset = None;
                    self.set_waveform_offset(drag.origin_offset);
                }
            },
            EditorMessage::ResetWaveformOffset => {
                self.active_waveform_offset = None;
                self.set_waveform_offset(Binary32::zero());
            },
        }
        None
    }

    /// Return whether the window menu and the help panel are open.
    pub fn transient_state(&self) -> (open: (bool, bool))
        ensures
            open == (self.window_dropdown_open, self.help_open),
    {
        (self.window_dropdown_open, self.help_open)
    }

    /// The control that gets the focus back once what it opened has closed.
    pub open spec fn focus_target(
        self,
        was_window_dropdown_open: bool,
        was_help_open: bool,
    ) -> Option<u64> {
        if self.window_dropdown_open || self.help_open {
            None
        } else if was_window_dropdown_open {
            Some(WINDOW_DROPDOWN_WIDGET_ID)
        } else if was_help_open {
            Some(WINDOW_HELP_BUTTON_WIDGET_ID)
        } else {
            None
        }
    }

    /// Return the control that gets the focus back once what it opened has
    /// closed.
    pub fn focus_after_transient_close(
        &self,
        was_window_dropdown_open: bool,
        was_help_open: bool,
    ) -> (target: Option<u64>)
        ensures
            target == self.focus_target(was_window_dropdown_open, was_help_open),
    {
        if was_window_dropdown_open && !self.window_dropdown_open && !self.help_open {
            Some(WINDOW_DROPDOWN_WIDGET_ID)
        } else if was_help_open && !self.help_open && !self.window_dropdown_open {
            Some(WINDOW_HELP_BUTTON_WIDGET_ID)
        } else {
            None
        }
    }

    /// Close whatever is open. Nothing is handled when nothing is.
    pub fn cancel_text_entry(&mut self) -> (handled: (bool, Option<u64>))
        ensures
            *final(self) == old(self).after(EditorMessage::DismissTransient),
            handled.0 == (old(self).window_dropdown_open || old(self).help_open),
            handled.1 == final(self).focus_target(
                old(self).window_dropdown_open,
                old(self).help_open,
            ),
    {
        let (was_window_dropdown_open, was_help_open): (bool, bool) = self.transient_state();
        if !was_window_dropdown_open && !was_help_open {
            return (false, None);
        }
        let _ = self.reduce(EditorMessage::DismissTransient);
        (true, self.focus_after_transient_close(was_window_dropdown_open, was_help_open))
    }
}

/// Take a message in and select a window in the publication when it asks for
/// one.
pub fn reduce_surface(
    state: &mut EditorState,
    publication: &mut WaveformPublication,
    message: EditorMessage,
)
    requires
        old(publication).wf(),
    ensures
        *final(state) == old(state).after(message),
        final(publication).wf(),
        final(publication)@ == match message {
            EditorMessage::SelectWindow(window) => if old(publication)@.selected_window == window {
                old(publication)@
            } else {
                PublicationState { selected_window: window, ..old(publication)@.redrawn() }
            },
            _ => old(publication)@,
        },
        final(publication).keeps_buffers_of(*old(publication)),
{
    if let Some(window) = state.reduce(message) {
        let _ = publication.set_selected_window(window);
    }
}

/// What lies over the editor.
#[derive(Clone, Copy, Debug, PartialEq, Eq, Structural)]
pub enum Overlay {
    /// Nothing.
    Nothing,
    /// The window menu.
    WindowMenu,
    /// The help panel.
    Help,
}

/// One line of the window menu.
#[derive(Clone, Copy, Debug)]
pub struct WindowOption {
    /// The window.
    pub window: WindowLength,
    /// Its label.
    pub label: &'static str,
    /// Whether it is the selected one.
    pub selected: bool,
}

/// Everything that the editor's surface is built from.
pub struct SurfacePlan {
    /// The label of the window menu's trigger.
    pub trigger_label: &'static str,
    /// Whether the trigger shows the menu as open.
    pub trigger_open: bool,
    /// The lines of the window menu.
    pub options: Vec<WindowOption>,
    /// What lies over the editor.
    pub overlay: Overlay,
    /// The waveform.
    pub waveform: WaveformWidget,
    /// The text of the offset readout.
    pub readout: String,
}

impl SurfacePlan {
    /// The plan is that of an editor's state.
    pub open spec fn of(self, state: EditorState, sample_rate: Binary64) -> bool {
        &&& self.trigger_label@ == state.selected_window.label_text()
        &&& self.trigger_open == state.window_dropdown_open
        &&& self.options@.len() == 4
        &&& forall|at: int|
            0 <= at < 4 ==> {
                let option = #[trigger] self.options@[at];
                &&& option.window == WindowLength::ALL@[at]
                &&& option.label@ == option.window.label_text()
                &&& option.selected == (option.window == state.selected_window)
            }
        &&& self.overlay == if state.window_dropdown_open {
            Overlay::WindowMenu
        } else if state.help_open {
            Overlay::Help
        } else {
            Overlay::Nothing
        }
        &&& self.waveform.wf()
        &&& self.waveform.view == state.view
        &&& self.waveform.retained() == state.view.drawn_or_nothing()
        &&& self.waveform.interaction() == (Interaction {
            waveform_offset: normalize_waveform_offset(state.waveform_offset),
            command_held: state.waveform_command_held,
            shift_held: state.waveform_shift_held,
            active_offset: state.active_waveform_offset,
            chart_hovered: false,
            hovered: false,
            pressed: false,
            focused: false,
        })
        &&& self.readout@ == crate::offset::offset_text(
            state.waveform_offset,
            state.view.spec_offset_sample_count(),
            sample_rate,
        )
    }
}

impl EditorState {
    fn option(&self, window: WindowLength) -> (option: WindowOption)
        ensures
            option.window == window,
            option.label@ == window.label_text(),
            option.selected == (window == self.selected_window),
    {
        WindowOption { window, label: window.label(), selected: window == self.selected_window }
    }

    /// Plan the editor's surface.
    pub fn plan(&self, sample_rate: Binary64) -> (plan: SurfacePlan)
        ensures
            plan.of(*self, sample_rate),
    {
        let mut options: Vec<WindowOption> = Vec::new();
        options.push(self.option(WindowLength::OneBeat));
        options.push(self.option(WindowLength::TwoBeats));
        options.push(self.option(WindowLength::FourBeats));
        options.push(self.option(WindowLength::EightBeats));
        SurfacePlan {
            trigger_label: self.selected_window.label(),
            trigger_open: self.window_dropdown_open,
            options,
            overlay: if self.window_dropdown_open {
                Overlay::WindowMenu
            } else if self.help_open {
                Overlay::Help
            } else {
                Overlay::Nothing
            },
            waveform: WaveformWidget::new_with_interaction(
                self.view,
                self.waveform_offset,
                self.waveform_command_held,
                self.waveform_shift_held,
                self.active_waveform_offset,
            ),
            readout: format_waveform_offset(
                self.waveform_offset,
                offset_sample_count(self.view),
                sample_rate,
            ),
        }
    }
}

/// Read the publication and plan the editor's surface. While a transaction is
/// open the last coherent view stays.
pub fn project_surface(state: &mut EditorState, publication: &WaveformPublication) -> (plan:
    SurfacePlan)
    requires
        publication.wf(),
    ensures
        plan.of(*final(state), publication@.sample_rate),
        publication@.idle() ==> final(state).view.shows(publication@.presentation()),
        *final(state) == (EditorState {
            view: if publication@.idle() {
                final(state).view
            } else {
                old(state).view
            },
            selected_window: publication@.selected_window,
            ..*old(state)
        }),
{
    let _ = publication.read_view(&mut state.view);
    state.selected_window = publication.selected_window();
    state.plan(publication.sample_rate())
}

/// The redraw revision that the editor last painted.
#[derive(Clone, Copy, Debug, PartialEq, Eq, Structural)]
pub struct RedrawTracker {
    /// The revision.
    pub last_redraw_revision: u64,
}

impl RedrawTracker {
    /// Create the tracker of a new editor.
    pub fn new() -> (tracker: RedrawTracker)
        ensures
            tracker.last_redraw_revision == 0,
    {
        RedrawTracker { last_redraw_revision: 0 }
    }

    /// Whether a revision was not painted yet.
    pub fn needs_realtime_redraw(&self, revision: u64) -> (due: bool)
        ensures
            due == (revision != self.last_redraw_revision),
    {
        revision != self.last_redraw_revision
    }

    /// Take note that a revision is painted, and return whether the surface has
    /// to be refreshed for it.
    pub fn refresh_due(&mut self, revision: u64) -> (due: bool)
        ensures
            due == (revision != old(self).last_redraw_revision),
            final(self).last_redraw_revision == revision,
    {
        if revision != self.last_redraw_revision {
            self.last_redraw_revision = revision;
            return true;
        }
        false
    }
}

/// The window menu and the help panel are never open at once.
pub proof fn transients_exclude_each_other(state: EditorState, message: EditorMessage)
    requires
        !(state.window_dropdown_open && state.help_open),
    ensures
        ({
            let after = state.after(message);
            !(after.window_dropdown_open && after.help_open)
        }),
{
}

/// Where a drag has led depends on its origin and the pointer alone, not on
/// the way there.
pub proof fn drags_do_not_accumulate(state: EditorState, first: Binary32, second: Binary32)
    ensures
        state.after(EditorMessage::DragWaveformOffset { delta: first }).after(
            EditorMessage::DragWaveformOffset { delta: second },
        ) == state.after(EditorMessage::DragWaveformOffset { delta: second }),
        state.after(EditorMessage::DragWaveformOffset { delta: first }).after(
            EditorMessage::EndWaveformOffset { delta: second },
        ) == state.after(EditorMessage::EndWaveformOffset { delta: second }),
{
}

/// A drag that is given up leaves the offset that it started from, brought to
/// the range of one window; one that is in the range is left as it was.
pub proof fn cancelled_drags_return(state: EditorState, pointer_x: Binary32, delta: Binary32)
    ensures
        ({
            let after = state.after(EditorMessage::BeginWaveformOffset { pointer_x }).after(
                EditorMessage::DragWaveformOffset { delta },
            ).after(EditorMessage::CancelWaveformOffset);
            &&& after.waveform_offset == normalize_waveform_offset(state.waveform_offset)
            &&& Binary32::zero().le(state.waveform_offset) && state.waveform_offset.lt(
                Binary32::one(),
            ) ==> after.waveform_offset == state.waveform_offset
            &&& after.active_waveform_offset is None
        }),
{
    if Binary32::zero().le(state.waveform_offset) && state.waveform_offset.lt(Binary32::one()) {
        crate::offset::normalized_offsets_are_kept(state.waveform_offset);
    }
}

/// A reset returns to true zero from any state and ends a drag.
pub proof fn resets_return_to_true_zero(state: EditorState)
    ensures
        state.after(EditorMessage::ResetWaveformOffset).waveform_offset == Binary32::zero(),
        state.after(EditorMessage::ResetWaveformOffset).active_waveform_offset is None,
{
    crate::offset::true_zero_is_normalized();
}

/// Dismissing the menu or the help panel gives the focus back to the control
/// that opened it.
pub proof fn dismissal_returns_the_focus(state: EditorState)
    requires
        !(state.window_dropdown_open && state.help_open),
    ensures
        state.after(EditorMessage::DismissTransient).focus_target(
            state.window_dropdown_open,
            state.help_open,
        ) == if state.window_dropdown_open {
            Some(WINDOW_DROPDOWN_WIDGET_ID)
        } else if state.help_open {
            Some(WINDOW_HELP_BUTTON_WIDGET_ID)
        } else {
            None
        },
{
}

/// A drag leads to the offset that it started from and the distance of the
/// pointer, brought to the range of one window, and its end keeps it there.
/// Without a drag neither changes anything.
pub proof fn drags_move_the_waveform(state: EditorState, pointer_x: Binary32, delta: Binary32)
    ensures
        ({
            let begun = state.after(EditorMessage::BeginWaveformOffset { pointer_x });
            let moved = begun.after(EditorMessage::DragWaveformOffset { delta });
            let ended = begun.after(EditorMessage::EndWaveformOffset { delta });
            let place = normalize_waveform_offset(state.waveform_offset.add(delta));
            &&& begun.waveform_offset == state.waveform_offset
            &&& begun.active_waveform_offset matches Some(drag) && drag.start_pointer_x
                == pointer_x && drag.origin_offset == state.waveform_offset
            &&& begun.waveform_command_held && begun.waveform_shift_held
            &&& moved.waveform_offset == place
            &&& moved.active_waveform_offset == begun.active_waveform_offset
            &&& ended.waveform_offset == place
            &&& ended.active_waveform_offset is None
        }),
        state.active_waveform_offset is None ==> {
            &&& state.after(EditorMessage::DragWaveformOffset { delta }) == state
            &&& state.after(EditorMessage::EndWaveformOffset { delta }) == state
            &&& state.after(EditorMessage::CancelWaveformOffset) == state
        },
{
}

/// A window that is selected is the selected one, and nothing stays open.
/// Opening the menu or the help closes the other, and toggling one twice closes
/// it. None of this moves the waveform.
pub proof fn menus_open_one_at_a_time(state: EditorState, window: WindowLength)
    ensures
        ({
            let selected = state.after(EditorMessage::SelectWindow(window));
            let menu = state.after(EditorMessage::ToggleWindowDropdown);
            let help = state.after(EditorMessage::ToggleHelp);
            let closed = state.after(EditorMessage::DismissTransient);
            &&& selected.selected_window == window
            &&& !selected.window_dropdown_open && !selected.help_open
            &&& menu.window_dropdown_open == !state.window_dropdown_open && !menu.help_open
            &&& help.help_open == !state.help_open && !help.window_dropdown_open
            &&& !closed.window_dropdown_open && !closed.help_open
            &&& menu.selected_window == state.selected_window
            &&& help.selected_window == state.selected_window
            &&& closed.selected_window == state.selected_window
            &&& same_waveform(state, selected)
            &&& same_waveform(state, menu)
            &&& same_waveform(state, help)
            &&& same_waveform(state, closed)
        }),
{
}

/// The waveform, its offset and the drag are the same in both states.
pub open spec fn same_waveform(one: EditorState, other: EditorState) -> bool {
    &&& one.view == other.view
    &&& one.waveform_offset == other.waveform_offset
    &&& one.waveform_command_held == other.waveform_command_held
    &&& one.waveform_shift_held == other.waveform_shift_held
    &&& one.active_waveform_offset == other.active_waveform_offset
}

/// Whatever is asked of the waveform leaves the menus, the selection and the
/// view alone; a change of keys is taken over, ends a drag and leaves the
/// waveform where it is.
pub proof fn waveform_messages_leave_the_menus(
    state: EditorState,
    command_held: bool,
    shift_held: bool,
    pointer_x: Binary32,
    delta: Binary32,
)
    ensures
        ({
            let keys = state.after(
                EditorMessage::SetWaveformModifiers { command_held, shift_held },
            );
            &&& keys.waveform_command_held == command_held
            &&& keys.waveform_shift_held == shift_held
            &&& keys.active_waveform_offset is None
            &&& keys.waveform_offset == state.waveform_offset
            &&& same_menus(state, keys)
            &&& same_menus(state, state.after(EditorMessage::BeginWaveformOffset { pointer_x }))
            &&& same_menus(state, state.after(EditorMessage::DragWaveformOffset { delta }))
            &&& same_menus(state, state.after(EditorMessage::EndWaveformOffset { delta }))
            &&& same_menus(state, state.after(EditorMessage::CancelWaveformOffset))
            &&& same_menus(state, state.after(EditorMessage::ResetWaveformOffset))
        }),
{
}

/// The menus, the selection and the view are the same in both states.
pub open spec fn same_menus(one: EditorState, other: EditorState) -> bool {
    &&& one.view == other.view
    &&& one.selected_window == other.selected_window
    &&& one.window_dropdown_open == other.window_dropdown_open
    &&& one.help_open == other.help_open
}

/// A surface offers the four windows from the shortest on, marks the selected
/// one only, and shows at most one thing over the waveform.
pub proof fn surfaces_show_the_state(plan: SurfacePlan, state: EditorState, sample_rate: Binary64)
    requires
        plan.of(state, sample_rate),
    ensures
        plan.options@.len() == 4,
        plan.options@[0].window == WindowLength::OneBeat,
        plan.options@[1].window == WindowLength::TwoBeats,
        plan.options@[2].window == WindowLength::FourBeats,
        plan.options@[3].window == WindowLength::EightBeats,
        forall|at: int|
            0 <= at < 4 ==> (#[trigger] plan.options@[at]).selected == (plan.options@[at].window
                == state.selected_window) && plan.options@[at].label@
                == plan.options@[at].window.label_text(),
        plan.trigger_label@ == state.selected_window.label_text(),
        plan.trigger_open == state.window_dropdown_open,
        plan.overlay == Overlay::WindowMenu <==> state.window_dropdown_open,
        plan.overlay == Overlay::Help <==> state.help_open && !state.window_dropdown_open,
        plan.waveform.view == state.view,
        plan.waveform.active_offset == state.active_waveform_offset,
        plan.waveform.command_held == state.waveform_command_held,
        plan.waveform.shift_held == state.waveform_shift_held,
        plan.waveform.waveform_offset == normalize_waveform_offset(state.waveform_offset),
{
}

/// The focus goes back to the control whose menu or panel closed, and nowhere
/// while anything is open.
pub proof fn the_focus_goes_back_where_it_came_from(
    state: EditorState,
    was_window_dropdown_open: bool,
    was_help_open: bool,
)
    ensures
        ({
            let target = state.focus_target(was_window_dropdown_open, was_help_open);
            &&& state.window_dropdown_open || state.help_open ==> target is None
            &&& !was_window_dropdown_open && !was_help_open ==> target is None
            &&& !state.window_dropdown_open && !state.help_open && was_window_dropdown_open
                ==> target == Some(0x5741_5645_0000_0001u64)
            &&& !state.window_dropdown_open && !state.help_open && !was_window_dropdown_open
                && was_help_open ==> target == Some(0x5741_5645_0000_0002u64)
        }),
{
}

} // verus!
