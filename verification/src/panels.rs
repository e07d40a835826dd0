//! The offset readout, the help button and the help panel.

use crate::binary::{Binary32, Binary64};
use crate::chart::footer_height;
use crate::geometry::Rect;
use crate::offset::format_waveform_offset;
use crate::paint::{paint_fill, paint_stroke, paint_text, Mark, PaintItem, Role, TextStyle, Tint};
use crate::waveform::WaveformWidget;
use vstd::prelude::*;
use vstd::string::*;

verus! {

/// The bit pattern of a footer's inset, three.
const FOOTER_INSET: u32 = 0x4040_0000;

/// The bit pattern of the small font size, ten.
const SMALL_FONT: u32 = 0x4120_0000;

/// The bit pattern of the button font size, twelve.
const BUTTON_FONT: u32 = 0x4140_0000;

/// The bit pattern of the editor's margin, sixteen.
const MARGIN: u32 = 0x4180_0000;

/// The bit pattern of both margins, thirty-two.
const MARGINS: u32 = 0x4200_0000;

/// The bit pattern of one half.
const HALF: u32 = 0x3f00_0000;

/// The bit pattern of a baseline's share of a font size, 0.35.
const BASELINE_SHARE: u32 = 0x3eb3_3333;

/// The bit pattern of a button text's inset from the top, 3.4.
const BUTTON_TEXT_INSET: u32 = 0x4059_999a;

/// The bit pattern of the help panel's padding, 13.6.
const PANEL_PADDING: u32 = 0x4159_999a;

/// The bit pattern of both paddings, 27.2.
const PANEL_PADDINGS: u32 = 0x41d9_999a;

/// The bit pattern of the help title's distance from the top, 10.2.
const TITLE_TOP: u32 = 0x4123_3333;

/// The bit pattern of the first help row's distance from the top, 35.7.
const ROWS_TOP: u32 = 0x420e_cccd;

/// The bit pattern of the distance between help rows, 20.4.
const ROW_STEP: u32 = 0x41a3_3333;

/// The bit pattern of the height of a help row, seventeen.
const ROW_HEIGHT: u32 = 0x4188_0000;

/// The bit pattern of the width of a help row's key, 190.
const KEY_WIDTH: u32 = 0x433e_0000;

/// How assistive technology treats a widget.
#[derive(Clone, Copy, Debug, PartialEq, Eq, Structural)]
pub enum AutomationRole {
    /// A value to read out.
    Readout,
    /// A control to activate.
    Button,
    /// Plain text.
    Text,
}

/// How changes are announced.
#[derive(Clone, Copy, Debug, PartialEq, Eq, Structural)]
pub enum AutomationLiveRegion {
    /// Not at all.
    Silent,
    /// When nothing else is being said.
    Polite,
}

/// What a widget tells assistive technology.
pub struct AutomationSemantics {
    /// The role.
    pub role: AutomationRole,
    /// The name.
    pub label: &'static str,
    /// What the widget is for.
    pub description: Option<&'static str>,
    /// The value.
    pub value_text: Option<String>,
    /// How changes are announced.
    pub live_region: AutomationLiveRegion,
    /// Whether the widget takes the keyboard focus.
    pub focusable: bool,
}

impl WaveformWidget {
    /// Tell what the waveform shows. Changes are announced with the status.
    pub fn automation_semantics(&self) -> (semantics: AutomationSemantics)
        ensures
            semantics.role == AutomationRole::Readout,
            semantics.label@ == "Capture status"@,
            semantics.description is None,
            semantics.value_text matches Some(value)
                && value@ == self.view.status_presentation().label(),
            semantics.live_region == AutomationLiveRegion::Polite,
            !semantics.focusable,
    {
        AutomationSemantics {
            role: AutomationRole::Readout,
            label: "Capture status",
            description: None,
            value_text: Some(self.status_text()),
            live_region: AutomationLiveRegion::Polite,
            focusable: false,
        }
    }
}

/// Non-focusable signed offset status shown beneath the waveform chart.
#[derive(Debug)]
pub struct WaveformOffsetReadoutWidget {
    /// The text.
    pub offset_text: String,
}

/// The readout's only mark.
pub open spec fn readout_mark(text: Seq<char>, bounds: Rect) -> Mark {
    let footer = footer_height(bounds.height().max(Binary32::one()));
    let inset = Binary32::from_bits(0x4040_0000);
    let ten = Binary32::from_bits(0x4120_0000);
    Mark::Text(
        text,
        TextStyle {
            rect: Rect::from_xy_size(
                bounds.min.x.add(Binary32::from_bits(0x4180_0000)),
                bounds.max.y.sub(footer).add(inset),
                bounds.width().sub(Binary32::from_bits(0x4200_0000)).max(Binary32::one()),
                footer.sub(inset).max(Binary32::one()),
            ),
            font_size: ten,
            baseline: Some(ten),
            tint: Tint::plain(Role::TextMuted),
            centered: false,
        },
    )
}

impl WaveformOffsetReadoutWidget {
    /// Create the readout of an offset.
    pub fn new(offset: Binary32, sample_count: usize, sample_rate: Binary64) -> (readout:
        WaveformOffsetReadoutWidget)
        ensures
            readout.offset_text@ == crate::offset::offset_text(offset, sample_count, sample_rate),
    {
        WaveformOffsetReadoutWidget {
            offset_text: format_waveform_offset(offset, sample_count, sample_rate),
        }
    }

    /// Whether the readout takes part in pointer input. It lies over the
    /// waveform and leaves every gesture to it.
    pub fn accepts_pointer_input(&self) -> (accepts: bool)
        ensures
            !accepts,
    {
        false
    }

    /// Paint the readout.
    pub fn append_paint(&self, items: &mut Vec<PaintItem>, bounds: Rect)
        ensures
            crate::paint::marks(final(items)@) == crate::paint::marks(old(items)@).push(
                readout_mark(self.offset_text@, bounds),
            ),
    {
        let footer: Binary32 = footer_height(bounds.height().max(Binary32::one()));
        let inset: Binary32 = Binary32::from_bits(FOOTER_INSET);
        paint_text(
            items,
            self.offset_text.as_str(),
            TextStyle {
                rect: Rect::from_xy_size(
                    bounds.min.x.add(Binary32::from_bits(MARGIN)),
                    bounds.max.y.sub(footer).add(inset),
                    bounds.width().sub(Binary32::from_bits(MARGINS)).max(Binary32::one()),
                    footer.sub(inset).max(Binary32::one()),
                ),
                font_size: Binary32::from_bits(SMALL_FONT),
                baseline: Some(Binary32::from_bits(SMALL_FONT)),
                tint: Tint::plain(Role::TextMuted),
                centered: false,
            },
        );
    }

    /// Tell the offset. Changes are not announced.
    pub fn automation_semantics(&self) -> (semantics: AutomationSemantics)
        ensures
            semantics.role == AutomationRole::Readout,
            semantics.label@ == "Waveform offset"@,
            semantics.description matches Some(description)
                && description@ == "Signed distance from the waveform true-zero position"@,
            semantics.value_text matches Some(value) && value@ == self.offset_text@,
            semantics.live_region == AutomationLiveRegion::Silent,
            !semantics.focusable,
    {
        AutomationSemantics {
            role: AutomationRole::Readout,
            label: "Waveform offset",
            description: Some("Signed distance from the waveform true-zero position"),
            value_text: Some(self.offset_text.clone()),
            live_region: AutomationLiveRegion::Silent,
            focusable: false,
        }
    }
}

/// The rectangle of a header button's text.
pub open spec fn spec_header_button_text_rect(bounds: Rect) -> Rect {
    let inset = Binary32::from_bits(0x4059_999a);
    Rect::from_xy_size(
        bounds.min.x,
        bounds.min.y.add(inset),
        bounds.width(),
        bounds.height().sub(inset).max(Binary32::one()),
    )
}

/// Place a header button's text.
#[verifier::when_used_as_spec(spec_header_button_text_rect)]
pub fn header_button_text_rect(bounds: Rect) -> (rect: Rect)
    ensures
        rect == spec_header_button_text_rect(bounds),
{
    let inset: Binary32 = Binary32::from_bits(BUTTON_TEXT_INSET);
    Rect::from_xy_size(
        bounds.min.x,
        bounds.min.y.add(inset),
        bounds.width(),
        bounds.height().sub(inset).max(Binary32::one()),
    )
}

/// The baseline of a header button's text.
pub open spec fn spec_header_button_text_baseline(rect: Rect) -> Binary32 {
    rect.height().mul(Binary32::from_bits(0x3f00_0000)).add(
        Binary32::from_bits(0x4140_0000).mul(Binary32::from_bits(0x3eb3_3333)),
    ).max(Binary32::zero())
}

/// Return the baseline of a header button's text.
#[verifier::when_used_as_spec(spec_header_button_text_baseline)]
pub fn header_button_text_baseline(rect: Rect) -> (baseline: Binary32)
    ensures
        baseline == spec_header_button_text_baseline(rect),
{
    rect.height().mul(Binary32::from_bits(HALF)).add(
        Binary32::from_bits(BUTTON_FONT).mul(Binary32::from_bits(BASELINE_SHARE)),
    ).max(Binary32::zero())
}

/// Compact question-mark control that opens the help panel.
#[derive(Clone, Copy, Debug, PartialEq, Eq, Structural)]
pub struct WaveHelpButton {
    /// Whether it is pressed.
    pub pressed: bool,
    /// Whether the pointer is over it.
    pub hovered: bool,
    /// Whether it has the focus.
    pub focused: bool,
}

impl WaveHelpButton {
    /// What the button paints.
    pub open spec fn painted(self, bounds: Rect) -> Seq<Mark> {
        let text_rect = header_button_text_rect(bounds);
        seq![
            Mark::Fill(
                bounds,
                if self.pressed {
                    Tint::with_alpha(Role::Copper, 96)
                } else if self.hovered {
                    Tint::plain(Role::HoveredSurface)
                } else {
                    Tint::plain(Role::Surface)
                },
            ),
            Mark::Stroke(
                bounds,
                Tint::plain(
                    if self.focused {
                        Role::Warning
                    } else {
                        Role::Border
                    },
                ),
                Binary32::one(),
            ),
            Mark::Text(
                "?"@,
                TextStyle {
                    rect: text_rect,
                    font_size: Binary32::from_bits(0x4140_0000),
                    baseline: Some(header_button_text_baseline(text_rect)),
                    tint: Tint::plain(Role::TextPrimary),
                    centered: true,
                },
            ),
        ]
    }

    /// Paint the button.
    pub fn append_paint(&self, items: &mut Vec<PaintItem>, bounds: Rect)
        ensures
            crate::paint::marks(final(items)@) == crate::paint::marks(old(items)@) + self.painted(
                bounds,
            ),
    {
        let ghost start = crate::paint::marks(items@);
        let text_rect: Rect = header_button_text_rect(bounds);
        let fill: Tint = if self.pressed {
            Tint::with_alpha(Role::Copper, 96)
        } else if self.hovered {
            Tint::plain(Role::HoveredSurface)
        } else {
            Tint::plain(Role::Surface)
        };
        paint_fill(items, bounds, fill);
        paint_stroke(
            items,
            bounds,
            Tint::plain(
                if self.focused {
                    Role::Warning
                } else {
                    Role::Border
                },
            ),
            Binary32::one(),
        );
        paint_text(
            items,
            "?",
            TextStyle {
                rect: text_rect,
                font_size: Binary32::from_bits(BUTTON_FONT),
                baseline: Some(header_button_text_baseline(text_rect)),
                tint: Tint::plain(Role::TextPrimary),
                centered: true,
            },
        );
        assert(crate::paint::marks(items@) =~= start + self.painted(bounds));
    }

    /// Tell what the button does.
    pub fn automation_semantics(&self) -> (semantics: AutomationSemantics)
        ensures
            semantics.role == AutomationRole::Button,
            semantics.label@ == "Show WAVE help"@,
            semantics.description matches Some(description)
                && description@ == "Open the WAVE help panel"@,
            semantics.value_text is None,
            semantics.live_region == AutomationLiveRegion::Silent,
            semantics.focusable,
    {
        AutomationSemantics {
            role: AutomationRole::Button,
            label: "Show WAVE help",
            description: Some("Open the WAVE help panel"),
            value_text: None,
            live_region: AutomationLiveRegion::Silent,
            focusable: true,
        }
    }
}

/// The number of rows in the help panel.
pub const WINDOW_HELP_ROWS: usize = 6;

/// The gesture that a row of the help panel explains.
pub open spec fn help_key(row: usize) -> Seq<char> {
    if row == 0 {
        "Tab / Shift + Tab"@
    } else if row == 1 {
        "Enter / Space"@
    } else if row == 2 {
        "WINDOW menu"@
    } else if row == 3 {
        "Command + Shift + double-click"@
    } else if row == 4 {
        "Escape"@
    } else {
        "Click outside"@
    }
}

/// The explanation in a row of the help panel.
pub open spec fn help_description(row: usize) -> Seq<char> {
    if row == 0 {
        "Move focus"@
    } else if row == 1 {
        "Activate the focused control"@
    } else if row == 2 {
        "Select a beat window"@
    } else if row == 3 {
        "Reset waveform offset"@
    } else {
        "Dismiss the open menu or help"@
    }
}

/// Return a row of the help panel.
pub fn help_row(row: usize) -> (texts: (&'static str, &'static str))
    requires
        row < WINDOW_HELP_ROWS,
    ensures
        texts.0@ == help_key(row),
        texts.1@ == help_description(row),
{
    match row {
        0 => ("Tab / Shift + Tab", "Move focus"),
        1 => ("Enter / Space", "Activate the focused control"),
        2 => ("WINDOW menu", "Select a beat window"),
        3 => ("Command + Shift + double-click", "Reset waveform offset"),
        4 => ("Escape", "Dismiss the open menu or help"),
        _ => ("Click outside", "Dismiss the open menu or help"),
    }
}

/// Non-interactive help content shown in a transient panel.
#[derive(Clone, Copy, Debug, PartialEq, Eq, Structural)]
pub struct WaveHelpPanel;

/// The small text of a help row.
pub open spec fn spec_row_style(rect: Rect, role: Role) -> TextStyle {
    TextStyle {
        rect,
        font_size: Binary32::from_bits(0x4120_0000),
        baseline: None,
        tint: Tint::plain(role),
        centered: false,
    }
}

/// The small text of a help row.
#[verifier::when_used_as_spec(spec_row_style)]
fn row_style(rect: Rect, role: Role) -> (style: TextStyle)
    ensures
        style == spec_row_style(rect, role),
{
    TextStyle {
        rect,
        font_size: Binary32::from_bits(SMALL_FONT),
        baseline: None,
        tint: Tint::plain(role),
        centered: false,
    }
}

impl WaveHelpPanel {
    /// The panel's surface, border and title.
    pub open spec fn frame_marks(bounds: Rect) -> Seq<Mark> {
        seq![
            Mark::Fill(bounds.inset(Binary32::one()), Tint::plain(Role::Overlay)),
            Mark::Stroke(bounds, Tint::plain(Role::Border), Binary32::one()),
            Mark::Text(
                "WAVE HELP"@,
                TextStyle {
                    rect: Rect::from_xy_size(
                        bounds.min.x.add(Binary32::from_bits(0x4159_999a)),
                        bounds.min.y.add(Binary32::from_bits(0x4123_3333)),
                        bounds.width().sub(Binary32::from_bits(0x41d9_999a)),
                        Binary32::from_bits(0x4188_0000),
                    ),
                    font_size: Binary32::from_bits(0x4140_0000),
                    baseline: None,
                    tint: Tint::plain(Role::Copper),
                    centered: false,
                },
            ),
        ]
    }

    /// The two texts of a row.
    pub open spec fn row_marks(bounds: Rect, row: usize) -> Seq<Mark> {
        let x = bounds.min.x.add(Binary32::from_bits(0x4159_999a));
        let y = bounds.min.y.add(Binary32::from_bits(0x420e_cccd)).add(
            Binary32::from_whole(row as u64).mul(Binary32::from_bits(0x41a3_3333)),
        );
        let key_width = Binary32::from_bits(0x433e_0000);
        let height = Binary32::from_bits(0x4188_0000);
        seq![
            Mark::Text(
                help_key(row),
                spec_row_style(Rect::from_xy_size(x, y, key_width, height), Role::TextPrimary),
            ),
            Mark::Text(
                help_description(row),
                spec_row_style(
                    Rect::from_xy_size(
                        x.add(key_width),
                        y,
                        bounds.width().sub(key_width).sub(Binary32::from_bits(0x41d9_999a)),
                        height,
                    ),
                    Role::TextMuted,
                ),
            ),
        ]
    }

    /// The texts of the first `count` rows.
    pub open spec fn rows_marks(bounds: Rect, count: nat) -> Seq<Mark>
        decreases count,
    {
        if count == 0 {
            seq![]
        } else {
            WaveHelpPanel::rows_marks(bounds, (count - 1) as nat) + WaveHelpPanel::row_marks(
                bounds,
                (count - 1) as usize,
            )
        }
    }

    /// What the panel paints.
    pub open spec fn painted(bounds: Rect) -> Seq<Mark> {
        WaveHelpPanel::frame_marks(bounds) + WaveHelpPanel::rows_marks(
            bounds,
            WINDOW_HELP_ROWS as nat,
        )
    }

    /// Paint the panel.
    pub fn append_paint(&self, items: &mut Vec<PaintItem>, bounds: Rect)
        ensures
            crate::paint::marks(final(items)@) == crate::paint::marks(old(items)@)
                + WaveHelpPanel::painted(bounds),
    {
        let ghost start = crate::paint::marks(items@);
        paint_fill(items, bounds.inset(Binary32::one()), Tint::plain(Role::Overlay));
        paint_stroke(items, bounds, Tint::plain(Role::Border), Binary32::one());
        paint_text(
            items,
            "WAVE HELP",
            TextStyle {
                rect: Rect::from_xy_size(
                    bounds.min.x.add(Binary32::from_bits(PANEL_PADDING)),
                    bounds.min.y.add(Binary32::from_bits(TITLE_TOP)),
                    bounds.width().sub(Binary32::from_bits(PANEL_PADDINGS)),
                    Binary32::from_bits(ROW_HEIGHT),
                ),
                font_size: Binary32::from_bits(BUTTON_FONT),
                baseline: None,
                tint: Tint::plain(Role::Copper),
                centered: false,
            },
        );
        let ghost framed = crate::paint::marks(items@);
        assert(framed =~= start + WaveHelpPanel::frame_marks(bounds));
        let x: Binary32 = bounds.min.x.add(Binary32::from_bits(PANEL_PADDING));
        let row_top: Binary32 = bounds.min.y.add(Binary32::from_bits(ROWS_TOP));
        let key_width: Binary32 = Binary32::from_bits(KEY_WIDTH);
        let height: Binary32 = Binary32::from_bits(ROW_HEIGHT);
        let mut row: usize = 0;
        assert(framed + WaveHelpPanel::rows_marks(bounds, 0) =~= framed);
        while row < WINDOW_HELP_ROWS
            invariant
                row <= WINDOW_HELP_ROWS,
                x == bounds.min.x.add(Binary32::from_bits(0x4159_999a)),
                row_top == bounds.min.y.add(Binary32::from_bits(0x420e_cccd)),
                key_width == Binary32::from_bits(0x433e_0000),
                height == Binary32::from_bits(0x4188_0000),
                crate::paint::marks(items@) == framed + WaveHelpPanel::rows_marks(
                    bounds,
                    row as nat,
                ),
            decreases WINDOW_HELP_ROWS - row,
        {
            let ghost before = crate::paint::marks(items@);
            let (key, description): (&'static str, &'static str) = help_row(row);
            let y: Binary32 = row_top.add(
                Binary32::from_whole(row as u64).mul(Binary32::from_bits(ROW_STEP)),
            );
            paint_text(
                items,
                key,
                row_style(Rect::from_xy_size(x, y, key_width, height), Role::TextPrimary),
            );
            paint_text(
                items,
                description,
                row_style(
                    Rect::from_xy_size(
                        x.add(key_width),
                        y,
                        bounds.width().sub(key_width).sub(Binary32::from_bits(PANEL_PADDINGS)),
                        height,
                    ),
                    Role::TextMuted,
                ),
            );
            assert(crate::paint::marks(items@) =~= before + WaveHelpPanel::row_marks(bounds, row));
            assert(before + WaveHelpPanel::row_marks(bounds, row) =~= framed
                + WaveHelpPanel::rows_marks(bounds, (row + 1) as nat));
            row = row + 1;
        }
        assert(crate::paint::marks(items@) =~= start + WaveHelpPanel::painted(bounds));
    }

    /// Tell what the panel holds.
    pub fn automation_semantics(&self) -> (semantics: AutomationSemantics)
        ensures
            semantics.role == AutomationRole::Text,
            semantics.label@ == "WAVE help"@,
            semantics.description matches Some(description)
                && description@ == "Supported WAVE keyboard and pointer interactions"@,
            semantics.value_text is None,
            semantics.live_region == AutomationLiveRegion::Silent,
            !semantics.focusable,
    {
        AutomationSemantics {
            role: AutomationRole::Text,
            label: "WAVE help",
            description: Some("Supported WAVE keyboard and pointer interactions"),
            value_text: None,
            live_region: AutomationLiveRegion::Silent,
            focusable: false,
        }
    }
}

/// The help panel has a row for every gesture, one below the other: the gesture
/// on the left and what it does on the right.
pub proof fn help_rows_follow_each_other(bounds: Rect, row: int)
    requires
        0 <= row < 6,
    ensures
        ({
            let marks = WaveHelpPanel::painted(bounds);
            let x = bounds.min.x.add(Binary32 { bits: 0x4159_999a });
            let y = bounds.min.y.add(Binary32 { bits: 0x420e_cccd }).add(
                Binary32::from_whole(row as u64).mul(Binary32 { bits: 0x41a3_3333 }),
            );
            let key_width = Binary32 { bits: 0x433e_0000 };
            &&& marks.len() == 15
            &&& marks[3 + 2 * row] matches Mark::Text(text, style) && {
                &&& text == help_key(row as usize)
                &&& style.rect.min.x == x
                &&& style.rect.min.y == y
                &&& style.rect.max.x == x.add(key_width)
                &&& style.tint == Tint::plain(Role::TextPrimary)
            }
            &&& marks[4 + 2 * row] matches Mark::Text(text, style) && {
                &&& text == help_description(row as usize)
                &&& style.rect.min.x == x.add(key_width)
                &&& style.rect.min.y == y
                &&& style.tint == Tint::plain(Role::TextMuted)
            }
        }),
{
    reveal_with_fuel(WaveHelpPanel::rows_marks, 7);
    assert(row == 0 || row == 1 || row == 2 || row == 3 || row == 4 || row == 5);
}

/// What the help explains, gesture by gesture.
pub proof fn help_explains_every_gesture()
    ensures
        help_key(0) == "Tab / Shift + Tab"@ && help_description(0) == "Move focus"@,
        help_key(1) == "Enter / Space"@ && help_description(1) == "Activate the focused control"@,
        help_key(2) == "WINDOW menu"@ && help_description(2) == "Select a beat window"@,
        help_key(3) == "Command + Shift + double-click"@,
        help_description(3) == "Reset waveform offset"@,
        help_key(4) == "Escape"@ && help_description(4) == "Dismiss the open menu or help"@,
        help_key(5) == "Click outside"@ && help_description(5) == "Dismiss the open menu or help"@,
{
}

/// The readout stands below the chart, inside the footer and the margins.
pub proof fn readouts_stand_in_the_footer(text: Seq<char>, bounds: Rect)
    ensures
        ({
            let one = Binary32 { bits: 0x3f80_0000 };
            let inset = Binary32 { bits: 0x4040_0000 };
            let footer = (Binary32 { bits: 0x41e0_0000 }).min(
                bounds.max.y.sub(bounds.min.y).max(one).mul(Binary32 { bits: 0x3df5_c28f }),
            );
            readout_mark(text, bounds) matches Mark::Text(shown, style) && {
                &&& shown == text
                &&& style.rect.min.x == bounds.min.x.add(Binary32 { bits: 0x4180_0000 })
                &&& style.rect.min.y == bounds.max.y.sub(footer).add(inset)
                &&& style.rect.max.x == style.rect.min.x.add(
                    bounds.max.x.sub(bounds.min.x).sub(Binary32 { bits: 0x4200_0000 }).max(one),
                )
                &&& style.rect.max.y == style.rect.min.y.add(footer.sub(inset).max(one))
                &&& style.font_size == (Binary32 { bits: 0x4120_0000 })
                &&& style.tint == Tint { role: Role::TextMuted, alpha: None }
                &&& !style.centered
            }
        }),
{
}

/// The help button tells a press first, then the pointer over it; its border
/// tells the focus, and a question mark stands in its middle.
pub proof fn help_buttons_tell_their_state(button: WaveHelpButton, bounds: Rect)
    ensures
        ({
            let marks = button.painted(bounds);
            &&& marks.len() == 3
            &&& marks[0] matches Mark::Fill(rect, tint) && {
                &&& rect == bounds
                &&& button.pressed ==> tint == Tint { role: Role::Copper, alpha: Some(96u8) }
                &&& !button.pressed && button.hovered ==> tint == Tint {
                    role: Role::HoveredSurface,
                    alpha: None,
                }
                &&& !button.pressed && !button.hovered ==> tint == Tint {
                    role: Role::Surface,
                    alpha: None,
                }
            }
            &&& marks[1] matches Mark::Stroke(rect, tint, width) && {
                &&& rect == bounds
                &&& width == (Binary32 { bits: 0x3f80_0000 })
                &&& tint.role == if button.focused {
                    Role::Warning
                } else {
                    Role::Border
                }
            }
            &&& marks[2] matches Mark::Text(text, style) && {
                &&& text == "?"@
                &&& style.centered
                &&& style.rect.min.x == bounds.min.x
                &&& style.rect.min.y == bounds.min.y.add(Binary32 { bits: 0x4059_999a })
            }
        }),
{
}

} // verus!
