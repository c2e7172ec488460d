//! How a card looks on a terminal: its symbol repeated once per unit of
//! quantity, in its colour, faint or bold by its shading.

use crate::card::{quantity_rank, Card, Color, Shading, Shape};
use vstd::prelude::*;

verus! {

#[verifier::external_type_specification]
#[verifier::external_body]
pub struct ExColoredString(colored::ColoredString);

/// The symbol of a shape.
pub open spec fn glyph(shape: Shape) -> Seq<char> {
    match shape {
        Shape::Squiggle => "S"@,
        Shape::Circle => "O"@,
        Shape::Diamond => "<>"@,
    }
}

/// The text `g` written `n` times in a row.
pub open spec fn repeated(g: Seq<char>, n: nat) -> Seq<char>
    decreases n,
{
    if n == 0 {
        Seq::empty()
    } else {
        repeated(g, (n - 1) as nat) + g
    }
}

/// The plain text that a styled string shows (its `input` field).
pub uninterp spec fn shown_text(s: colored::ColoredString) -> Seq<char>;

/// Whether a styled string is shown in red (its foreground colour is
/// `colored::Color::Red`).
pub uninterp spec fn shown_red(s: colored::ColoredString) -> bool;

/// Whether a styled string is shown in green (its foreground colour is
/// `colored::Color::Green`).
pub uninterp spec fn shown_green(s: colored::ColoredString) -> bool;

/// Whether a styled string is shown in purple (its foreground colour is
/// `colored::Color::Magenta`, which colored's `purple` stands for).
pub uninterp spec fn shown_purple(s: colored::ColoredString) -> bool;

/// Whether a styled string is shown faint (its style holds
/// `colored::Styles::Dimmed`).
pub uninterp spec fn shown_dimmed(s: colored::ColoredString) -> bool;

/// Whether a styled string is shown bold (its style holds
/// `colored::Styles::Bold`).
pub uninterp spec fn shown_bold(s: colored::ColoredString) -> bool;

/// Relies on colored's `Colorize::red` for `&str`, which is
/// `color(Color::Red)`: the text as `input`, red as foreground colour, and
/// the default (clear) style.
#[verifier::external_body]
fn paint_red(text: &str) -> (r: colored::ColoredString)
    ensures
        shown_text(r) == text@,
        shown_red(r),
        !shown_green(r),
        !shown_purple(r),
        !shown_dimmed(r),
        !shown_bold(r),
{
    colored::Colorize::red(text)
}

/// Relies on colored's `Colorize::green` for `&str`, which is
/// `color(Color::Green)`: the text as `input`, green as foreground colour,
/// and the default (clear) style.
#[verifier::external_body]
fn paint_green(text: &str) -> (r: colored::ColoredString)
    ensures
        shown_text(r) == text@,
        !shown_red(r),
        shown_green(r),
        !shown_purple(r),
        !shown_dimmed(r),
        !shown_bold(r),
{
    colored::Colorize::green(text)
}

/// Relies on colored's `Colorize::purple` for `&str`, which is
/// `color(Color::Magenta)`: the text as `input`, magenta as foreground
/// colour, and the default (clear) style.
#[verifier::external_body]
fn paint_purple(text: &str) -> (r: colored::ColoredString)
    ensures
        shown_text(r) == text@,
        !shown_red(r),
        !shown_green(r),
        shown_purple(r),
        !shown_dimmed(r),
        !shown_bold(r),
{
    colored::Colorize::purple(text)
}

/// Relies on colored's `Colorize::dimmed` for `ColoredString`: it adds
/// `Styles::Dimmed` to the style and keeps the text, the colours and the
/// other styles.
#[verifier::external_body]
fn faint(text: colored::ColoredString) -> (r: colored::ColoredString)
    ensures
        shown_text(r) == shown_text(text),
        shown_red(r) == shown_red(text),
        shown_green(r) == shown_green(text),
        shown_purple(r) == shown_purple(text),
        shown_dimmed(r),
        shown_bold(r) == shown_bold(text),
{
    colored::Colorize::dimmed(text)
}

/// Relies on colored's `Colorize::bold` for `ColoredString`: it adds
/// `Styles::Bold` to the style and keeps the text, the colours and the
/// other styles.
#[verifier::external_body]
fn strong(text: colored::ColoredString) -> (r: colored::ColoredString)
    ensures
        shown_text(r) == shown_text(text),
        shown_red(r) == shown_red(text),
        shown_green(r) == shown_green(text),
        shown_purple(r) == shown_purple(text),
        shown_dimmed(r) == shown_dimmed(text),
        shown_bold(r),
{
    colored::Colorize::bold(text)
}

impl Card {
    /// The card's symbol, written once for each unit of its quantity.
    pub fn glyphs(&self) -> (r: String)
        ensures
            r@ == repeated(glyph(self.shape), (quantity_rank(self.quantity) + 1) as nat),
    {
        let symbol: &str = match self.shape {
            Shape::Squiggle => "S",
            Shape::Circle => "O",
            Shape::Diamond => "<>",
        };
        let count: usize = match self.quantity {
            crate::card::Quantity::One => 1,
            crate::card::Quantity::Two => 2,
            crate::card::Quantity::Three => 3,
        };
        let mut out = String::new();
        let mut written: usize = 0;
        while written < count
            invariant
                written <= count,
                count == quantity_rank(self.quantity) + 1,
                symbol@ == glyph(self.shape),
                out@ == repeated(glyph(self.shape), written as nat),
            decreases count - written,
        {
            out.append(symbol);
            written = written + 1;
        }
        out
    }

    /// The card as styled text: its glyphs in its colour, faint when its
    /// shading is empty and bold when it is full.
    pub fn print(&self) -> (r: colored::ColoredString)
        ensures
            shown_text(r) == repeated(glyph(self.shape), (quantity_rank(self.quantity) + 1) as nat),
            shown_red(r) == (self.color == Color::Red),
            shown_green(r) == (self.color == Color::Green),
            shown_purple(r) == (self.color == Color::Purple),
            shown_dimmed(r) == (self.shading == Shading::Empty),
            shown_bold(r) == (self.shading == Shading::Full),
    {
        let text = self.glyphs();
        let painted = match self.color {
            Color::Red => paint_red(text.as_str()),
            Color::Green => paint_green(text.as_str()),
            Color::Purple => paint_purple(text.as_str()),
        };
        match self.shading {
            Shading::Empty => faint(painted),
            Shading::Partial => painted,
            Shading::Full => strong(painted),
        }
    }
}

} // verus!
