//! Cards and their four attributes.

use vstd::prelude::*;

verus! {

/// The colour of the symbols on a card.
#[derive(Clone, Copy, Debug, PartialEq, Eq, Structural)]
pub enum Color {
    Red,
    Green,
    Purple,
}

/// How many symbols a card shows.
#[derive(Clone, Copy, Debug, PartialEq, Eq, Structural)]
pub enum Quantity {
    One,
    Two,
    Three,
}

/// How the symbols on a card are filled in.
#[derive(Clone, Copy, Debug, PartialEq, Eq, Structural)]
pub enum Shading {
    Empty,
    Partial,
    Full,
}

/// The symbol drawn on a card.
#[derive(Clone, Copy, Debug, PartialEq, Eq, Structural)]
pub enum Shape {
    Squiggle,
    Circle,
    Diamond,
}

/// A card: one value of each of the four attributes. Two cards are equal
/// exactly when all four attributes are.
#[derive(Clone, Copy, Debug, PartialEq, Eq, Structural)]
pub struct Card {
    pub color: Color,
    pub quantity: Quantity,
    pub shading: Shading,
    pub shape: Shape,
}

/// The position of a colour in the order Red, Green, Purple.
pub open spec fn color_rank(c: Color) -> int {
    match c {
        Color::Red => 0,
        Color::Green => 1,
        Color::Purple => 2,
    }
}

/// The number of symbols, less one.
pub open spec fn quantity_rank(q: Quantity) -> int {
    match q {
        Quantity::One => 0,
        Quantity::Two => 1,
        Quantity::Three => 2,
    }
}

/// The position of a shading in the order Empty, Partial, Full.
pub open spec fn shading_rank(s: Shading) -> int {
    match s {
        Shading::Empty => 0,
        Shading::Partial => 1,
        Shading::Full => 2,
    }
}

/// The position of a shape in the order Squiggle, Circle, Diamond.
pub open spec fn shape_rank(s: Shape) -> int {
    match s {
        Shape::Squiggle => 0,
        Shape::Circle => 1,
        Shape::Diamond => 2,
    }
}

/// The card's place in the full deck, read as a four-digit number in base
/// three: colour first, then quantity, shading and shape.
pub open spec fn deck_position(c: Card) -> int {
    27 * color_rank(c.color) + 9 * quantity_rank(c.quantity) + 3 * shading_rank(c.shading)
        + shape_rank(c.shape)
}

/// Distinct cards have distinct places in the deck, and every place lies in
/// `0..81`.
pub proof fn lemma_deck_position_injective(a: Card, b: Card)
    ensures
        0 <= deck_position(a) < 81,
        deck_position(a) == deck_position(b) ==> a == b,
{
}

} // verus!
