//! Building the full deck and shuffling it.

use crate::card::{deck_position, lemma_deck_position_injective, Card, Color, Quantity, Shading, Shape};
use vstd::prelude::*;

verus! {

broadcast use vstd::seq_lib::group_to_multiset_ensures;

/// Every one of the 81 cards, in the order of their deck positions.
pub open spec fn full_deck() -> Seq<Card> {
    Seq::new(81, |i: int| choose|c: Card| deck_position(c) == i)
}

/// Builds the full deck: every combination of the four attributes exactly
/// once, colour outermost, then quantity, shading and shape.
pub fn initial_deck() -> (pile: Vec<Card>)
    ensures
        pile@ == full_deck(),
        pile@.len() == 81,
        forall|i: int| 0 <= i < 81 ==> deck_position(#[trigger] pile@[i]) == i,
        pile@.no_duplicates(),
        forall|c: Card| pile@.contains(c),
{
    let colors: [Color; 3] = [Color::Red, Color::Green, Color::Purple];
    let quantities: [Quantity; 3] = [Quantity::One, Quantity::Two, Quantity::Three];
    let shadings: [Shading; 3] = [Shading::Empty, Shading::Partial, Shading::Full];
    let shapes: [Shape; 3] = [Shape::Squiggle, Shape::Circle, Shape::Diamond];
    let mut pile: Vec<Card> = Vec::new();
    for a in 0..3usize
        invariant
            colors@ == seq![Color::Red, Color::Green, Color::Purple],
            quantities@ == seq![Quantity::One, Quantity::Two, Quantity::Three],
            shadings@ == seq![Shading::Empty, Shading::Partial, Shading::Full],
            shapes@ == seq![Shape::Squiggle, Shape::Circle, Shape::Diamond],
            pile@.len() == 27 * a,
            forall|i: int| 0 <= i < pile@.len() ==> deck_position(#[trigger] pile@[i]) == i,
    {
        for b in 0..3usize
            invariant
                a < 3,
                colors@ == seq![Color::Red, Color::Green, Color::Purple],
                quantities@ == seq![Quantity::One, Quantity::Two, Quantity::Three],
                shadings@ == seq![Shading::Empty, Shading::Partial, Shading::Full],
                shapes@ == seq![Shape::Squiggle, Shape::Circle, Shape::Diamond],
                pile@.len() == 27 * a + 9 * b,
                forall|i: int| 0 <= i < pile@.len() ==> deck_position(#[trigger] pile@[i]) == i,
        {
            for c in 0..3usize
                invariant
                    a < 3,
                    b < 3,
                    colors@ == seq![Color::Red, Color::Green, Color::Purple],
                    quantities@ == seq![Quantity::One, Quantity::Two, Quantity::Three],
                    shadings@ == seq![Shading::Empty, Shading::Partial, Shading::Full],
                    shapes@ == seq![Shape::Squiggle, Shape::Circle, Shape::Diamond],
                    pile@.len() == 27 * a + 9 * b + 3 * c,
                    forall|i: int|
                        0 <= i < pile@.len() ==> deck_position(#[trigger] pile@[i]) == i,
            {
                for d in 0..3usize
                    invariant
                        a < 3,
                        b < 3,
                        c < 3,
                        colors@ == seq![Color::Red, Color::Green, Color::Purple],
                        quantities@ == seq![Quantity::One, Quantity::Two, Quantity::Three],
                        shadings@ == seq![Shading::Empty, Shading::Partial, Shading::Full],
                        shapes@ == seq![Shape::Squiggle, Shape::Circle, Shape::Diamond],
                        pile@.len() == 27 * a + 9 * b + 3 * c + d,
                        forall|i: int|
                            0 <= i < pile@.len() ==> deck_position(#[trigger] pile@[i]) == i,
                {
                    let card = Card {
                        color: colors[a],
                        quantity: quantities[b],
                        shading: shadings[c],
                        shape: shapes[d],
                    };
                    pile.push(card);
                }
            }
        }
    }
    proof {
        assert forall|i: int, j: int| 0 <= i < j < 81 implies pile@[i] != pile@[j] by {
            assert(deck_position(pile@[i]) == i);
            assert(deck_position(pile@[j]) == j);
        }
        assert forall|c: Card| pile@.contains(c) by {
            lemma_deck_position_injective(c, c);
            let i = deck_position(c);
            lemma_deck_position_injective(c, pile@[i]);
        }
        assert forall|i: int| 0 <= i < 81 implies pile@[i] == full_deck()[i] by {
            let c = choose|c: Card| deck_position(c) == i;
            assert(deck_position(pile@[i]) == i);
            lemma_deck_position_injective(c, pile@[i]);
        }
        assert(pile@ =~= full_deck());
    }
    pile
}

/// The sequence with the elements at `i` and `j` exchanged.
pub open spec fn swapped(s: Seq<Card>, i: int, j: int) -> Seq<Card> {
    s.update(i, s[j]).update(j, s[i])
}

/// The result of exchanging, for each `k` in turn, the element at `k` with the
/// element at `picks[k]`.
pub open spec fn swaps_applied(s: Seq<Card>, picks: Seq<usize>) -> Seq<Card>
    decreases picks.len(),
{
    if picks.len() == 0 {
        s
    } else {
        let k = picks.len() - 1;
        swapped(swaps_applied(s, picks.drop_last()), k, picks[k] as int)
    }
}

/// The choices that a Fisher-Yates shuffle of `n` elements may make: one for
/// each position but the last, each at or after its own position.
pub open spec fn fisher_yates_picks(picks: Seq<usize>, n: int) -> bool {
    &&& picks.len() == if n == 0 { 0 } else { n - 1 }
    &&& forall|k: int| 0 <= k < picks.len() ==> k <= #[trigger] picks[k] < n
}

proof fn lemma_swapped_multiset(s: Seq<Card>, i: int, j: int)
    requires
        0 <= i < s.len(),
        0 <= j < s.len(),
    ensures
        swapped(s, i, j).to_multiset() == s.to_multiset(),
        swapped(s, i, j).len() == s.len(),
{
    broadcast use vstd::multiset::group_multiset_axioms;
    assert(swapped(s, i, j).to_multiset() =~= s.to_multiset());
}

/// Exchanges, for each `k` in turn, the element at `k` with the element at
/// `picks[k]`. With the choices of a Fisher-Yates shuffle this is that
/// shuffle; with any choices in range it rearranges the cards.
pub fn shuffle_with(pile: &Vec<Card>, picks: &Vec<usize>) -> (r: Vec<Card>)
    requires
        picks@.len() <= pile@.len(),
        forall|k: int| 0 <= k < picks@.len() ==> #[trigger] picks@[k] < pile@.len(),
    ensures
        r@ == swaps_applied(pile@, picks@),
        r@.to_multiset() == pile@.to_multiset(),
        r@.len() == pile@.len(),
{
    let mut result = pile.clone();
    assert(result@ =~= pile@);
    let mut k: usize = 0;
    while k < picks.len()
        invariant
            k <= picks@.len() <= pile@.len(),
            forall|m: int| 0 <= m < picks@.len() ==> #[trigger] picks@[m] < pile@.len(),
            result@ == swaps_applied(pile@, picks@.subrange(0, k as int)),
            result@.to_multiset() == pile@.to_multiset(),
            result@.len() == pile@.len(),
        decreases picks@.len() - k,
    {
        let j = picks[k];
        proof {
            lemma_swapped_multiset(result@, k as int, j as int);
            assert(picks@.subrange(0, k + 1).drop_last() =~= picks@.subrange(0, k as int));
        }
        let first = result[k];
        let second = result[j];
        result.set(k, second);
        result.set(j, first);
        k = k + 1;
    }
    assert(picks@.subrange(0, picks@.len() as int) =~= picks@);
    result
}

/// Relies on `rand::thread_rng` and `rand::Rng::gen_range`: a number drawn
/// from the thread's generator, at least `low` and below `high` (the call
/// panics unless `low < high`).
#[verifier::external_body]
fn random_index(low: usize, high: usize) -> (r: usize)
    requires
        low < high,
    ensures
        low <= r < high,
{
    rand::Rng::gen_range(&mut rand::thread_rng(), low, high)
}

/// A Fisher-Yates shuffle: for each position but the last, the element there
/// is exchanged with one at a position drawn uniformly from it to the end.
/// The input is left as it is; the result holds the same cards.
pub fn shuffle(pile: &Vec<Card>) -> (r: Vec<Card>)
    ensures
        r@.to_multiset() == pile@.to_multiset(),
        r@.len() == pile@.len(),
        exists|picks: Seq<usize>|
            fisher_yates_picks(picks, pile@.len() as int) && r@ == swaps_applied(pile@, picks),
{
    let len = pile.len();
    let mut picks: Vec<usize> = Vec::new();
    let mut index: usize = 0;
    while index + 1 < len
        invariant
            len == pile@.len(),
            index == picks@.len(),
            len == 0 ==> index == 0,
            len > 0 ==> index < len,
            forall|k: int| 0 <= k < picks@.len() ==> k <= #[trigger] picks@[k] < len,
        decreases len - index,
    {
        let pick = random_index(index, len);
        picks.push(pick);
        index = index + 1;
    }
    let result = shuffle_with(pile, &picks);
    assert(fisher_yates_picks(picks@, len as int));
    result
}

} // verus!
