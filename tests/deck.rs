use set_game::card::{Card, Color, Quantity, Shading, Shape};
use set_game::deck::{initial_deck, shuffle, shuffle_with};

fn sorted_positions(cards: &[Card]) -> Vec<usize> {
    let mut v: Vec<usize> = cards.iter().map(|c| position(c)).collect();
    v.sort();
    v
}

fn position(c: &Card) -> usize {
    let color = match c.color {
        Color::Red => 0,
        Color::Green => 1,
        Color::Purple => 2,
    };
    let quantity = match c.quantity {
        Quantity::One => 0,
        Quantity::Two => 1,
        Quantity::Three => 2,
    };
    let shading = match c.shading {
        Shading::Empty => 0,
        Shading::Partial => 1,
        Shading::Full => 2,
    };
    let shape = match c.shape {
        Shape::Squiggle => 0,
        Shape::Circle => 1,
        Shape::Diamond => 2,
    };
    27 * color + 9 * quantity + 3 * shading + shape
}

#[test]
fn initial_deck_holds_every_card_once() {
    let deck = initial_deck();
    assert_eq!(deck.len(), 81);
    for (i, c) in deck.iter().enumerate() {
        assert_eq!(position(c), i);
    }
    for i in 0..deck.len() {
        for j in i + 1..deck.len() {
            assert_ne!(deck[i], deck[j]);
        }
    }
}

#[test]
fn initial_deck_starts_and_ends_in_order() {
    let deck = initial_deck();
    assert_eq!(
        deck[0],
        Card { color: Color::Red, quantity: Quantity::One, shading: Shading::Empty, shape: Shape::Squiggle }
    );
    assert_eq!(
        deck[1],
        Card { color: Color::Red, quantity: Quantity::One, shading: Shading::Empty, shape: Shape::Circle }
    );
    assert_eq!(
        deck[80],
        Card { color: Color::Purple, quantity: Quantity::Three, shading: Shading::Full, shape: Shape::Diamond }
    );
}

#[test]
fn shuffle_keeps_the_cards() {
    let deck = initial_deck();
    let shuffled = shuffle(&deck);
    assert_eq!(shuffled.len(), 81);
    assert_eq!(sorted_positions(&shuffled), sorted_positions(&deck));
    assert_eq!(deck, initial_deck());
}

#[test]
fn shuffle_changes_the_order_of_a_full_deck() {
    let deck = initial_deck();
    let shuffled = shuffle(&deck);
    assert_ne!(shuffled, deck);
}

#[test]
fn shuffle_of_tiny_piles() {
    assert!(shuffle(&Vec::new()).is_empty());
    let one = vec![initial_deck()[5]];
    assert_eq!(shuffle(&one), one);
    let two = initial_deck()[0..2].to_vec();
    let s = shuffle(&two);
    assert_eq!(sorted_positions(&s), vec![0, 1]);
}

#[test]
fn shuffle_with_exchanges_in_turn() {
    let deck = initial_deck()[0..4].to_vec();
    // 0<->2, then 1<->3, then 2<->2.
    let r = shuffle_with(&deck, &vec![2, 3, 2]);
    assert_eq!(r, vec![deck[2], deck[3], deck[0], deck[1]]);
    let same = shuffle_with(&deck, &vec![0, 1, 2]);
    assert_eq!(same, deck);
    let rotated = shuffle_with(&deck, &vec![1, 2, 3]);
    assert_eq!(rotated, vec![deck[1], deck[2], deck[3], deck[0]]);
}

#[test]
fn glyphs_repeat_the_symbol() {
    let c = Card { color: Color::Green, quantity: Quantity::Three, shading: Shading::Full, shape: Shape::Diamond };
    assert_eq!(c.glyphs(), "<><><>");
    let d = Card { color: Color::Red, quantity: Quantity::One, shading: Shading::Empty, shape: Shape::Squiggle };
    assert_eq!(d.glyphs(), "S");
    let e = Card { color: Color::Purple, quantity: Quantity::Two, shading: Shading::Partial, shape: Shape::Circle };
    assert_eq!(e.glyphs(), "OO");
    assert_eq!(&*e.print(), "OO");
}

#[test]
fn print_colours_and_weights_the_glyphs() {
    let c = Card { color: Color::Red, quantity: Quantity::Two, shading: Shading::Empty, shape: Shape::Squiggle };
    let shown = c.print();
    assert_eq!(shown.input, "SS");
    assert_eq!(shown.fgcolor, Some(colored::Color::Red));
    assert!(shown.style.contains(colored::Styles::Dimmed));
    assert!(!shown.style.contains(colored::Styles::Bold));

    let d = Card { color: Color::Green, quantity: Quantity::One, shading: Shading::Partial, shape: Shape::Circle };
    let shown = d.print();
    assert_eq!(shown.input, "O");
    assert_eq!(shown.fgcolor, Some(colored::Color::Green));
    assert!(!shown.style.contains(colored::Styles::Dimmed));
    assert!(!shown.style.contains(colored::Styles::Bold));

    let e = Card { color: Color::Purple, quantity: Quantity::Three, shading: Shading::Full, shape: Shape::Diamond };
    let shown = e.print();
    assert_eq!(shown.input, "<><><>");
    assert_eq!(shown.fgcolor, Some(colored::Color::Magenta));
    assert!(!shown.style.contains(colored::Styles::Dimmed));
    assert!(shown.style.contains(colored::Styles::Bold));
}
