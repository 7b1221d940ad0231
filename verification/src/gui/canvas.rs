//! Draw lists: what a widget looks like, as a sequence of drawing operations.
use vstd::prelude::*;

verus! {

/// Icons of the shell.
#[derive(Clone, Copy, Debug, PartialEq, Eq, Structural)]
pub enum Icon {
    Plus,
    Music,
    Prev,
    Play,
    Pause,
    Next,
    Heart,
    Check,
    Weather,
}

/// A drawing operation. Colours are packed as 0xRRGGBB.
#[derive(Debug, PartialEq, Eq)]
pub enum DrawOp {
    /// A filled rectangle.
    Fill { x: usize, y: usize, w: usize, h: usize, color: u32 },
    /// A filled rectangle with round corners.
    FillRounded { x: usize, y: usize, w: usize, h: usize, color: u32, radius: usize },
    /// The edge of a rectangle.
    Outline { x: usize, y: usize, w: usize, h: usize, color: u32 },
    HLine { x: usize, y: usize, w: usize, color: u32 },
    VLine { x: usize, y: usize, h: usize, color: u32 },
    /// Text on a background.
    Text { text: String, x: usize, y: usize, fg: u32, bg: u32 },
    /// Text that is cut off where it does not fit.
    TextFit { text: String, x: usize, y: usize, w: usize, h: usize, fg: u32, bg: u32 },
    Picture { icon: Icon, x: usize, y: usize, fg: u32, bg: u32 },
    /// A card with a border and a shadow.
    Card {
        x: usize,
        y: usize,
        w: usize,
        h: usize,
        fill: u32,
        border: u32,
        radius: usize,
        shadow: u8,
    },
    /// A colour blended over the whole screen.
    Dim { color: u32, alpha: u8 },
}

/// What a drawing operation puts on the screen.
pub enum Ink {
    Fill { x: int, y: int, w: int, h: int, color: u32 },
    FillRounded { x: int, y: int, w: int, h: int, color: u32, radius: int },
    Outline { x: int, y: int, w: int, h: int, color: u32 },
    HLine { x: int, y: int, w: int, color: u32 },
    VLine { x: int, y: int, h: int, color: u32 },
    Text { text: Seq<char>, x: int, y: int, fg: u32, bg: u32 },
    TextFit { text: Seq<char>, x: int, y: int, w: int, h: int, fg: u32, bg: u32 },
    Picture { icon: Icon, x: int, y: int, fg: u32, bg: u32 },
    Card { x: int, y: int, w: int, h: int, fill: u32, border: u32, radius: int, shadow: u8 },
    Dim { color: u32, alpha: u8 },
}

impl View for DrawOp {
    type V = Ink;

    open spec fn view(&self) -> Ink {
        match *self {
            DrawOp::Fill { x, y, w, h, color } => Ink::Fill {
                x: x as int,
                y: y as int,
                w: w as int,
                h: h as int,
                color,
            },
            DrawOp::FillRounded { x, y, w, h, color, radius } => Ink::FillRounded {
                x: x as int,
                y: y as int,
                w: w as int,
                h: h as int,
                color,
                radius: radius as int,
            },
            DrawOp::Outline { x, y, w, h, color } => Ink::Outline {
                x: x as int,
                y: y as int,
                w: w as int,
                h: h as int,
                color,
            },
            DrawOp::HLine { x, y, w, color } => Ink::HLine {
                x: x as int,
                y: y as int,
                w: w as int,
                color,
            },
            DrawOp::VLine { x, y, h, color } => Ink::VLine {
                x: x as int,
                y: y as int,
                h: h as int,
                color,
            },
            DrawOp::Text { text, x, y, fg, bg } => Ink::Text {
                text: text@,
                x: x as int,
                y: y as int,
                fg,
                bg,
            },
            DrawOp::TextFit { text, x, y, w, h, fg, bg } => Ink::TextFit {
                text: text@,
                x: x as int,
                y: y as int,
                w: w as int,
                h: h as int,
                fg,
                bg,
            },
            DrawOp::Picture { icon, x, y, fg, bg } => Ink::Picture {
                icon,
                x: x as int,
                y: y as int,
                fg,
                bg,
            },
            DrawOp::Card { x, y, w, h, fill, border, radius, shadow } => Ink::Card {
                x: x as int,
                y: y as int,
                w: w as int,
                h: h as int,
                fill,
                border,
                radius: radius as int,
                shadow,
            },
            DrawOp::Dim { color, alpha } => Ink::Dim { color, alpha },
        }
    }
}

/// What several operations put on the screen, one after the other.
pub open spec fn inks(ops: Seq<DrawOp>) -> Seq<Ink> {
    Seq::new(ops.len(), |i: int| ops[i]@)
}

/// Adds an operation to a list.
pub fn put(ops: &mut Vec<DrawOp>, op: DrawOp)
    ensures
        inks(final(ops)@) == inks(old(ops)@).push(op@),
{
    ops.push(op);
    assert(inks(ops@) =~= inks(old(ops)@).push(op@));
}

/// An empty list.
pub fn blank() -> (r: Vec<DrawOp>)
    ensures
        inks(r@) == Seq::<Ink>::empty(),
{
    let v: Vec<DrawOp> = Vec::new();
    assert(inks(v@) =~= Seq::<Ink>::empty());
    v
}

} // verus!
