use set_game::card::{Card, Color, Quantity, Shading, Shape};
use set_game::deck::initial_deck;
use set_game::rules::{find_set, is_set};

fn card(color: Color, quantity: Quantity, shading: Shading, shape: Shape) -> Card {
    Card { color, quantity, shading, shape }
}

#[test]
fn is_set_works() {
    let card_0 = card(Color::Red, Quantity::One, Shading::Empty, Shape::Squiggle);
    let card_1 = card(Color::Red, Quantity::One, Shading::Partial, Shape::Squiggle);
    let card_2 = card(Color::Red, Quantity::One, Shading::Full, Shape::Squiggle);
    assert_eq!(is_set(&card_0, &card_1, &card_2), true)
}

#[test]
fn is_set_works_2() {
    let card_0 = card(Color::Red, Quantity::One, Shading::Empty, Shape::Squiggle);
    let card_1 = card(Color::Red, Quantity::Two, Shading::Partial, Shape::Squiggle);
    let card_2 = card(Color::Red, Quantity::Three, Shading::Full, Shape::Squiggle);
    assert_eq!(is_set(&card_0, &card_1, &card_2), true)
}

#[test]
fn is_set_works_3() {
    let card_0 = card(Color::Red, Quantity::One, Shading::Empty, Shape::Squiggle);
    let card_1 = card(Color::Green, Quantity::Two, Shading::Partial, Shape::Squiggle);
    let card_2 = card(Color::Purple, Quantity::Three, Shading::Full, Shape::Squiggle);
    assert_eq!(is_set(&card_0, &card_1, &card_2), true)
}

#[test]
fn is_set_works_4() {
    let card_0 = card(Color::Purple, Quantity::Two, Shading::Full, Shape::Squiggle);
    let card_1 = card(Color::Red, Quantity::Three, Shading::Partial, Shape::Squiggle);
    let card_2 = card(Color::Red, Quantity::Three, Shading::Empty, Shape::Squiggle);
    assert_eq!(is_set(&card_0, &card_1, &card_2), false)
}

#[test]
fn all_four_attributes_different_is_a_set() {
    let a = card(Color::Red, Quantity::One, Shading::Empty, Shape::Squiggle);
    let b = card(Color::Green, Quantity::Two, Shading::Partial, Shape::Circle);
    let c = card(Color::Purple, Quantity::Three, Shading::Full, Shape::Diamond);
    assert!(is_set(&a, &b, &c));
}

#[test]
fn two_equal_shapes_break_a_set() {
    let a = card(Color::Red, Quantity::One, Shading::Empty, Shape::Squiggle);
    let b = card(Color::Green, Quantity::Two, Shading::Partial, Shape::Squiggle);
    let c = card(Color::Purple, Quantity::Three, Shading::Full, Shape::Diamond);
    assert!(!is_set(&a, &b, &c));
}

#[test]
fn is_set_ignores_the_order_of_the_cards() {
    let deck = initial_deck();
    for &(x, y, z) in &[(0usize, 1usize, 2usize), (0, 1, 3), (5, 40, 75), (10, 20, 30), (2, 41, 80)] {
        let (a, b, c) = (&deck[x], &deck[y], &deck[z]);
        let r = is_set(a, b, c);
        assert_eq!(is_set(b, a, c), r);
        assert_eq!(is_set(a, c, b), r);
        assert_eq!(is_set(b, c, a), r);
        assert_eq!(is_set(c, a, b), r);
        assert_eq!(is_set(c, b, a), r);
    }
}

#[test]
fn find_set_lists_every_set_in_search_order() {
    let deck = initial_deck();
    let board: Vec<Card> = deck[0..6].to_vec();
    // The first six cards are red, one symbol, empty or partial shading.
    let sets = find_set(&board);
    assert_eq!(sets, vec![(0, 1, 2), (3, 4, 5)]);
}

#[test]
fn find_set_agrees_with_is_set_on_every_triple() {
    let deck = initial_deck();
    let board: Vec<Card> = deck.iter().step_by(7).cloned().collect();
    let sets = find_set(&board);
    let mut expected = Vec::new();
    for i in 0..board.len() {
        for j in i + 1..board.len() {
            for k in j + 1..board.len() {
                if is_set(&board[i], &board[j], &board[k]) {
                    expected.push((i, j, k));
                }
            }
        }
    }
    assert_eq!(sets, expected);
    assert_eq!(sets, vec![(0, 4, 8), (3, 7, 11)]);
}

#[test]
fn find_set_on_small_boards_is_empty() {
    assert!(find_set(&Vec::new()).is_empty());
    let deck = initial_deck();
    assert!(find_set(&deck[0..2].to_vec()).is_empty());
}

#[test]
fn find_set_on_a_board_without_sets() {
    // Red, one symbol; shapes Squiggle and Circle only, shadings Empty and Partial.
    let board = vec![
        card(Color::Red, Quantity::One, Shading::Empty, Shape::Squiggle),
        card(Color::Red, Quantity::One, Shading::Empty, Shape::Circle),
        card(Color::Red, Quantity::One, Shading::Partial, Shape::Squiggle),
        card(Color::Red, Quantity::One, Shading::Partial, Shape::Circle),
    ];
    assert!(find_set(&board).is_empty());
}
