//! The matching rule and the search for sets on a board.

use crate::card::{Card, Color, Quantity, Shading, Shape};
use vstd::prelude::*;

verus! {

/// Three values of one attribute are all the same or all different.
pub open spec fn same_or_distinct<T>(a: T, b: T, c: T) -> bool {
    (a == b && a == c) || (a != b && a != c && b != c)
}

/// Three cards form a set: in each of the four attributes they are all the
/// same or all different.
pub open spec fn forms_set(a: Card, b: Card, c: Card) -> bool {
    &&& same_or_distinct(a.color, b.color, c.color)
    &&& same_or_distinct(a.quantity, b.quantity, c.quantity)
    &&& same_or_distinct(a.shading, b.shading, c.shading)
    &&& same_or_distinct(a.shape, b.shape, c.shape)
}

/// A triple of board positions, in ascending order and in range, whose cards
/// form a set.
pub open spec fn is_set_triple(board: Seq<Card>, t: (usize, usize, usize)) -> bool {
    &&& t.0 < t.1 < t.2 < board.len()
    &&& forms_set(board[t.0 as int], board[t.1 as int], board[t.2 as int])
}

/// Lexicographic order on index triples: the order in which the search visits
/// them.
pub open spec fn triple_before(s: (usize, usize, usize), t: (usize, usize, usize)) -> bool {
    ||| s.0 < t.0
    ||| (s.0 == t.0 && s.1 < t.1)
    ||| (s.0 == t.0 && s.1 == t.1 && s.2 < t.2)
}

fn color_ok(a: Color, b: Color, c: Color) -> (r: bool)
    ensures
        r == same_or_distinct(a, b, c),
{
    (a == b && a == c) || (a != b && a != c && b != c)
}

fn quantity_ok(a: Quantity, b: Quantity, c: Quantity) -> (r: bool)
    ensures
        r == same_or_distinct(a, b, c),
{
    (a == b && a == c) || (a != b && a != c && b != c)
}

fn shading_ok(a: Shading, b: Shading, c: Shading) -> (r: bool)
    ensures
        r == same_or_distinct(a, b, c),
{
    (a == b && a == c) || (a != b && a != c && b != c)
}

fn shape_ok(a: Shape, b: Shape, c: Shape) -> (r: bool)
    ensures
        r == same_or_distinct(a, b, c),
{
    (a == b && a == c) || (a != b && a != c && b != c)
}

/// The matching rule does not depend on the order of the three cards: every
/// rearrangement of a triple gives the same answer.
pub proof fn lemma_forms_set_symmetric(a: Card, b: Card, c: Card)
    ensures
        forms_set(a, b, c) == forms_set(b, a, c),
        forms_set(a, b, c) == forms_set(a, c, b),
        forms_set(a, b, c) == forms_set(b, c, a),
        forms_set(a, b, c) == forms_set(c, a, b),
        forms_set(a, b, c) == forms_set(c, b, a),
{
}

/// Whether the three cards form a set. The attributes are checked one at a
/// time, and the check stops at the first that fails.
pub fn is_set(card_0: &Card, card_1: &Card, card_2: &Card) -> (r: bool)
    ensures
        r == forms_set(*card_0, *card_1, *card_2),
{
    if !color_ok(card_0.color, card_1.color, card_2.color) {
        return false;
    }
    if !quantity_ok(card_0.quantity, card_1.quantity, card_2.quantity) {
        return false;
    }
    if !shading_ok(card_0.shading, card_1.shading, card_2.shading) {
        return false;
    }
    shape_ok(card_0.shape, card_1.shape, card_2.shape)
}

/// Every set on the board, as ascending index triples, in the order of the
/// search: first index ascending, then the second, then the third.
pub fn find_set(board: &Vec<Card>) -> (r: Vec<(usize, usize, usize)>)
    ensures
        forall|n: int| 0 <= n < r.len() ==> is_set_triple(board@, #[trigger] r@[n]),
        forall|t: (usize, usize, usize)| is_set_triple(board@, t) ==> r@.contains(t),
        forall|m: int, n: int| 0 <= m < n < r.len() ==> triple_before(r@[m], r@[n]),
{
    let len = board.len();
    let mut result: Vec<(usize, usize, usize)> = Vec::new();
    let mut index_0: usize = 0;
    while index_0 < len
        invariant
            len == board.len(),
            index_0 <= len,
            forall|n: int| 0 <= n < result.len() ==> is_set_triple(board@, #[trigger] result@[n]),
            forall|n: int| 0 <= n < result.len() ==> (#[trigger] result@[n]).0 < index_0,
            forall|t: (usize, usize, usize)|
                is_set_triple(board@, t) && t.0 < index_0 ==> result@.contains(t),
            forall|m: int, n: int|
                0 <= m < n < result.len() ==> triple_before(result@[m], result@[n]),
        decreases len - index_0,
    {
        let mut index_1: usize = index_0 + 1;
        while index_1 < len
            invariant
                len == board.len(),
                index_0 < len,
                index_0 < index_1 <= len,
                forall|n: int|
                    0 <= n < result.len() ==> is_set_triple(board@, #[trigger] result@[n]),
                forall|n: int|
                    0 <= n < result.len() ==> triple_before(
                        #[trigger] result@[n],
                        (index_0, index_1, 0),
                    ),
                forall|t: (usize, usize, usize)|
                    is_set_triple(board@, t) && triple_before(t, (index_0, index_1, 0))
                        ==> result@.contains(t),
                forall|m: int, n: int|
                    0 <= m < n < result.len() ==> triple_before(result@[m], result@[n]),
            decreases len - index_1,
        {
            let mut index_2: usize = index_1 + 1;
            while index_2 < len
                invariant
                    len == board.len(),
                    index_0 < index_1 < len,
                    index_1 < index_2 <= len,
                    forall|n: int|
                        0 <= n < result.len() ==> is_set_triple(board@, #[trigger] result@[n]),
                    forall|n: int|
                        0 <= n < result.len() ==> triple_before(
                            #[trigger] result@[n],
                            (index_0, index_1, index_2),
                        ),
                    forall|t: (usize, usize, usize)|
                        is_set_triple(board@, t) && triple_before(t, (index_0, index_1, index_2))
                            ==> result@.contains(t),
                    forall|m: int, n: int|
                        0 <= m < n < result.len() ==> triple_before(result@[m], result@[n]),
                decreases len - index_2,
            {
                let ghost before = result@;
                if is_set(&board[index_0], &board[index_1], &board[index_2]) {
                    result.push((index_0, index_1, index_2));
                    assert(result@[before.len() as int] == (index_0, index_1, index_2));
                }
                assert forall|t: (usize, usize, usize)| before.contains(t) implies result@.contains(
                    t,
                ) by {
                    let n = choose|n: int| 0 <= n < before.len() && before[n] == t;
                    assert(result@[n] == t);
                }
                index_2 = index_2 + 1;
            }
            index_1 = index_1 + 1;
        }
        index_0 = index_0 + 1;
    }
    result
}

} // verus!
