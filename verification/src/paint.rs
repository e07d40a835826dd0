//! What the editor paints, as plain items in paint order.

use crate::binary::Binary32;
use crate::geometry::{Point, Rect};
use vstd::prelude::*;
use vstd::string::*;

verus! {

/// A color by its part in the theme.
#[derive(Clone, Copy, Debug, PartialEq, Eq, Structural)]
pub enum Role {
    /// The editor's background.
    Background,
    /// The base of surfaces.
    Surface,
    /// The base of panels above others.
    Overlay,
    /// The base of a surface under the pointer.
    HoveredSurface,
    /// An emphasized border.
    Border,
    /// A strong grid line.
    GridStrong,
    /// A soft grid line.
    GridSoft,
    /// Primary text.
    TextPrimary,
    /// Muted text.
    TextMuted,
    /// The mint accent.
    Mint,
    /// The copper accent.
    Copper,
    /// The warning accent.
    Warning,
    /// The blue highlight.
    Blue,
    /// The soft blue highlight.
    BlueSoft,
    /// The orange highlight.
    Orange,
    /// The cyan highlight.
    Cyan,
    /// The cyan highlight brought toward primary text by 0.55.
    BrightCyan,
}

/// A color, or one with another opacity.
#[derive(Clone, Copy, Debug, PartialEq, Eq, Structural)]
pub struct Tint {
    /// The part in the theme.
    pub role: Role,
    /// The opacity, when it is not the theme's own.
    pub alpha: Option<u8>,
}

impl Tint {
    /// A color of the theme.
    pub open spec fn spec_plain(role: Role) -> Tint {
        Tint { role, alpha: None }
    }

    /// A color of the theme.
    #[verifier::when_used_as_spec(spec_plain)]
    pub fn plain(role: Role) -> (tint: Tint)
        ensures
            tint == Tint::spec_plain(role),
    {
        Tint { role, alpha: None }
    }

    /// A color with an opacity.
    pub open spec fn spec_with_alpha(role: Role, alpha: u8) -> Tint {
        Tint { role, alpha: Some(alpha) }
    }

    /// A color with an opacity.
    #[verifier::when_used_as_spec(spec_with_alpha)]
    pub fn with_alpha(role: Role, alpha: u8) -> (tint: Tint)
        ensures
            tint == Tint::spec_with_alpha(role, alpha),
    {
        Tint { role, alpha: Some(alpha) }
    }
}

/// How a run of text is set.
#[derive(Clone, Copy, Debug, PartialEq, Eq, Structural)]
pub struct TextStyle {
    /// The rectangle that holds the run.
    pub rect: Rect,
    /// The font size.
    pub font_size: Binary32,
    /// The baseline below the rectangle's top, when it is set.
    pub baseline: Option<Binary32>,
    /// The color.
    pub tint: Tint,
    /// Whether the run is centered; it is on the left otherwise.
    pub centered: bool,
}

/// One painted item.
#[verifier::ext_equal]
pub enum Mark {
    /// A filled rectangle.
    Fill(Rect, Tint),
    /// The border of a rectangle.
    Stroke(Rect, Tint, Binary32),
    /// A run of text.
    Text(Seq<char>, TextStyle),
    /// A filled polygon.
    Polygon(Seq<Point>, Tint),
    /// A line through points.
    Polyline(Seq<Point>, Tint, Binary32),
    /// Filled rectangles of one color.
    Fills(Seq<Rect>, Tint),
}

/// One painted item.
#[derive(Debug)]
pub enum PaintItem {
    /// A filled rectangle.
    FillRect {
        /// The rectangle.
        rect: Rect,
        /// The color.
        tint: Tint,
    },
    /// The border of a rectangle.
    StrokeRect {
        /// The rectangle.
        rect: Rect,
        /// The color.
        tint: Tint,
        /// The width of the border.
        width: Binary32,
    },
    /// A run of text.
    Text {
        /// The text.
        text: String,
        /// How it is set.
        style: TextStyle,
    },
    /// A filled polygon.
    FillPolygon {
        /// The corners.
        points: Vec<Point>,
        /// The color.
        tint: Tint,
    },
    /// A line through points.
    StrokePolyline {
        /// The points.
        points: Vec<Point>,
        /// The color.
        tint: Tint,
        /// The width of the line.
        width: Binary32,
    },
    /// Filled rectangles of one color.
    FillRects {
        /// The rectangles.
        rects: Vec<Rect>,
        /// The color.
        tint: Tint,
    },
}

impl View for PaintItem {
    type V = Mark;

    open spec fn view(&self) -> Mark {
        match self {
            PaintItem::FillRect { rect, tint } => Mark::Fill(*rect, *tint),
            PaintItem::StrokeRect { rect, tint, width } => Mark::Stroke(*rect, *tint, *width),
            PaintItem::Text { text, style } => Mark::Text(text@, *style),
            PaintItem::FillPolygon { points, tint } => Mark::Polygon(points@, *tint),
            PaintItem::StrokePolyline { points, tint, width } => Mark::Polyline(
                points@,
                *tint,
                *width,
            ),
            PaintItem::FillRects { rects, tint } => Mark::Fills(rects@, *tint),
        }
    }
}

/// The marks of painted items.
pub open spec fn marks(items: Seq<PaintItem>) -> Seq<Mark> {
    Seq::new(items.len(), |at: int| items[at]@)
}

/// Paint one more item.
pub(crate) fn paint(items: &mut Vec<PaintItem>, item: PaintItem)
    ensures
        marks(final(items)@) == marks(old(items)@).push(item@),
{
    let ghost before = items@;
    items.push(item);
    assert(marks(items@) =~= marks(before).push(item@));
}

/// Paint a filled rectangle.
pub(crate) fn paint_fill(items: &mut Vec<PaintItem>, rect: Rect, tint: Tint)
    ensures
        marks(final(items)@) == marks(old(items)@).push(Mark::Fill(rect, tint)),
{
    paint(items, PaintItem::FillRect { rect, tint });
}

/// Paint the border of a rectangle.
pub(crate) fn paint_stroke(items: &mut Vec<PaintItem>, rect: Rect, tint: Tint, width: Binary32)
    ensures
        marks(final(items)@) == marks(old(items)@).push(Mark::Stroke(rect, tint, width)),
{
    paint(items, PaintItem::StrokeRect { rect, tint, width });
}

/// Paint a run of text.
pub(crate) fn paint_text(items: &mut Vec<PaintItem>, text: &str, style: TextStyle)
    ensures
        marks(final(items)@) == marks(old(items)@).push(Mark::Text(text@, style)),
{
    let text: String = String::from_str(text);
    paint(items, PaintItem::Text { text, style });
}

} // verus!
