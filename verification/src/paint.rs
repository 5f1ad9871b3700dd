//! What a surface draws, as a list of drawing steps in order.

use vstd::prelude::*;
use crate::geometry::Rect;

verus! {

// How text is placed in its rectangle.
pub const DT_CENTER: u32 = 0x1;

pub const DT_RIGHT: u32 = 0x2;

pub const DT_VCENTER: u32 = 0x4;

pub const DT_BOTTOM: u32 = 0x8;

pub const DT_WORDBREAK: u32 = 0x10;

pub const DT_SINGLELINE: u32 = 0x20;

pub const DT_NOPREFIX: u32 = 0x800;

pub const DT_END_ELLIPSIS: u32 = 0x8000;

/// One line, centred vertically.
pub const LINE: u32 = DT_SINGLELINE | DT_VCENTER;

/// One line, centred vertically and cut with an ellipsis.
pub const LINE_ELLIPSIS: u32 = DT_SINGLELINE | DT_VCENTER | DT_END_ELLIPSIS | DT_NOPREFIX;

/// One line at the right edge.
pub const LINE_RIGHT: u32 = DT_SINGLELINE | DT_VCENTER | DT_RIGHT;

/// One line, cut with an ellipsis, in which `&` marks a letter.
pub const LINE_CUT: u32 = DT_SINGLELINE | DT_VCENTER | DT_END_ELLIPSIS;

/// One line in the middle of its rectangle.
pub const LINE_CENTER: u32 = DT_CENTER | DT_SINGLELINE | DT_VCENTER;

/// One glyph in the middle of its rectangle.
pub const GLYPH_CENTER: u32 = DT_CENTER | DT_SINGLELINE | DT_VCENTER | DT_NOPREFIX;

/// One line, centred vertically, in which `&` is an ordinary character.
pub const LINE_PLAIN: u32 = DT_SINGLELINE | DT_VCENTER | DT_NOPREFIX;

/// The fonts a surface has at hand. Each surface gives them its own sizes.
#[derive(Clone, Copy, PartialEq, Eq, Structural, Debug)]
pub enum Font {
    Text,
    Small,
    Title,
    Head,
    Glyph,
    GlyphSmall,
    GlyphBig,
}

/// One drawing step.
#[derive(Debug)]
pub enum Draw {
    /// A filled rectangle.
    Fill { rect: Rect, color: u32 },
    /// A one-pixel frame around a rectangle.
    Frame { rect: Rect, color: u32 },
    /// A filled rectangle with an edge of another color.
    Box { rect: Rect, fill: u32, edge: u32 },
    /// A filled rounded rectangle with an edge `width` pixels wide.
    Round { rect: Rect, fill: u32, edge: u32, width: i32, radius: i32 },
    /// A filled rounded rectangle without an edge.
    Pill { rect: Rect, fill: u32, radius: i32 },
    /// The edge of a rounded rectangle.
    Outline { rect: Rect, edge: u32, width: i32, radius: i32 },
    /// The edge of an ellipse, `width` pixels wide.
    Ring { rect: Rect, edge: u32, width: i32 },
    /// A line of text.
    Text { font: Font, color: u32, text: String, rect: Rect, flags: u32 },
    /// An icon, stretched to a square.
    Icon { icon: u64, x: i32, y: i32, size: i32 },
    /// A bitmap, stretched.
    Image { bitmap: u64, x: i32, y: i32, width: i32, height: i32 },
    /// Nothing outside this rectangle is drawn from here on.
    Clip { rect: Rect },
    /// Nothing outside this ellipse is drawn from here on.
    ClipEllipse { rect: Rect },
    /// Everything is drawn again.
    Unclip,
}

/// A drawing step with its text as characters.
pub enum DrawView {
    Fill { rect: Rect, color: u32 },
    Frame { rect: Rect, color: u32 },
    Box { rect: Rect, fill: u32, edge: u32 },
    Round { rect: Rect, fill: u32, edge: u32, width: i32, radius: i32 },
    Pill { rect: Rect, fill: u32, radius: i32 },
    Outline { rect: Rect, edge: u32, width: i32, radius: i32 },
    Ring { rect: Rect, edge: u32, width: i32 },
    Text { font: Font, color: u32, text: Seq<char>, rect: Rect, flags: u32 },
    Icon { icon: u64, x: i32, y: i32, size: i32 },
    Image { bitmap: u64, x: i32, y: i32, width: i32, height: i32 },
    Clip { rect: Rect },
    ClipEllipse { rect: Rect },
    Unclip,
}

impl View for Draw {
    type V = DrawView;

    open spec fn view(&self) -> DrawView {
        match *self {
            Draw::Fill { rect, color } => DrawView::Fill { rect, color },
            Draw::Frame { rect, color } => DrawView::Frame { rect, color },
            Draw::Box { rect, fill, edge } => DrawView::Box { rect, fill, edge },
            Draw::Round { rect, fill, edge, width, radius } => DrawView::Round {
                rect,
                fill,
                edge,
                width,
                radius,
            },
            Draw::Pill { rect, fill, radius } => DrawView::Pill { rect, fill, radius },
            Draw::Outline { rect, edge, width, radius } => DrawView::Outline {
                rect,
                edge,
                width,
                radius,
            },
            Draw::Ring { rect, edge, width } => DrawView::Ring { rect, edge, width },
            Draw::Text { font, color, text, rect, flags } => DrawView::Text {
                font,
                color,
                text: text@,
                rect,
                flags,
            },
            Draw::Icon { icon, x, y, size } => DrawView::Icon { icon, x, y, size },
            Draw::Image { bitmap, x, y, width, height } => DrawView::Image {
                bitmap,
                x,
                y,
                width,
                height,
            },
            Draw::Clip { rect } => DrawView::Clip { rect },
            Draw::ClipEllipse { rect } => DrawView::ClipEllipse { rect },
            Draw::Unclip => DrawView::Unclip,
        }
    }
}

/// The steps of a list, with their texts as characters.
pub open spec fn shown(v: Seq<Draw>) -> Seq<DrawView> {
    Seq::new(v.len(), |i: int| v[i]@)
}

/// Append one step.
pub fn emit(out: &mut Vec<Draw>, d: Draw)
    ensures
        shown(final(out)@) == shown(old(out)@).push(d@),
        final(out)@.len() == old(out)@.len() + 1,
{
    out.push(d);
    assert(shown(out@) =~= shown(old(out)@).push(d@));
}

/// Append a filled rectangle.
pub fn fill(out: &mut Vec<Draw>, rect: Rect, color: u32)
    ensures
        shown(final(out)@) == shown(old(out)@).push(DrawView::Fill { rect, color }),
        final(out)@.len() == old(out)@.len() + 1,
{
    emit(out, Draw::Fill { rect, color });
}

/// Append a text.
pub fn label(out: &mut Vec<Draw>, font: Font, color: u32, text: &str, rect: Rect, flags: u32)
    ensures
        shown(final(out)@) == shown(old(out)@).push(
            (DrawView::Text { font, color, text: text@, rect, flags }),
        ),
        final(out)@.len() == old(out)@.len() + 1,
{
    emit(out, Draw::Text { font, color, text: text.to_owned(), rect, flags });
}

/// A text, unless it is empty.
pub open spec fn text_if(
    font: Font,
    color: u32,
    text: Seq<char>,
    rect: Rect,
    flags: u32,
) -> Seq<DrawView> {
    if text.len() == 0 {
        seq![]
    } else {
        seq![DrawView::Text { font, color, text, rect, flags }]
    }
}

/// Append a text, unless it is empty.
pub fn label_if(out: &mut Vec<Draw>, font: Font, color: u32, text: &str, rect: Rect, flags: u32)
    ensures
        shown(final(out)@) == shown(old(out)@) + text_if(font, color, text@, rect, flags),
{
    let ghost before = shown(out@);
    if crate::text::chars_of(text).len() > 0 {
        label(out, font, color, text, rect, flags);
    }
    assert(shown(out@) =~= before + text_if(font, color, text@, rect, flags));
}

} // verus!
