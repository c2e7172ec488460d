//! The game: a pile and a board, dealing, and the effect of each move.

use crate::card::Card;
use crate::deck::{fisher_yates_picks, full_deck, initial_deck, shuffle, swaps_applied};
use crate::input::{DummyInputProvider, Move};
use crate::rules::{find_set, forms_set, is_set, is_set_triple, triple_before};
use vstd::multiset::Multiset;
use vstd::prelude::*;

verus! {

broadcast use vstd::seq_lib::group_to_multiset_ensures;

/// The size below which the board is topped up from the pile.
pub const BOARD_SIZE: usize = 12;

/// What a move came to.
#[derive(Clone, Copy, Debug, PartialEq, Eq, Structural)]
pub enum Outcome {
    /// The three cards formed a set and left the board.
    SetRemoved,
    /// The three cards do not form a set; nothing changed.
    NotASet,
    /// Two of the three positions were the same; nothing changed.
    RepeatedIndex,
    /// A position was not on the board; nothing changed.
    IndexOutOfRange,
    /// A set is on the board, so no cards were dealt.
    DealDenied,
    /// Cards were dealt from the pile onto the board.
    Dealt,
    /// No set is on the board, but the pile is empty; nothing changed.
    PileExhausted,
    /// The first set on the board, in the order of the search.
    Hint(usize, usize, usize),
    /// No set is on the board.
    NoSetAvailable,
    /// The player left the game.
    Exited,
}

/// The state of a game as a reader of the rules sees it: the pile (its top is
/// its end), the board, the cards taken off the board as sets, and whether
/// the player has left.
pub struct GameState {
    pub pile: Seq<Card>,
    pub board: Seq<Card>,
    pub removed: Seq<Card>,
    pub exited: bool,
}

/// The game: it owns the pile and the board.
pub struct Game {
    pile: Vec<Card>,
    board: Vec<Card>,
    removed: Ghost<Seq<Card>>,
    exited: bool,
    #[allow(dead_code)]
    move_provider: DummyInputProvider,
}

impl View for Game {
    type V = GameState;

    closed spec fn view(&self) -> GameState {
        GameState {
            pile: self.pile@,
            board: self.board@,
            removed: self.removed@,
            exited: self.exited,
        }
    }
}

/// Pile, board and removed cards together are the full deck, each card once.
pub open spec fn well_formed(s: GameState) -> bool {
    (s.pile + s.board + s.removed).to_multiset() == full_deck().to_multiset()
}

/// Some set is on the board.
pub open spec fn has_set(board: Seq<Card>) -> bool {
    exists|t: (usize, usize, usize)| is_set_triple(board, t)
}

/// The first set on the board in the order of the search.
pub open spec fn is_first_set(board: Seq<Card>, t: (usize, usize, usize)) -> bool {
    &&& is_set_triple(board, t)
    &&& forall|u: (usize, usize, usize)| is_set_triple(board, u) ==> u == t || triple_before(t, u)
}

/// How many cards one deal moves: three, or what is left of the pile.
pub open spec fn deal_count(pile_len: int) -> int {
    if pile_len < 3 {
        pile_len
    } else {
        3
    }
}

/// One deal: up to three cards are taken from the top of the pile, one at a
/// time, and each is put at the end of the board.
pub open spec fn dealt(s: GameState) -> GameState {
    let n = s.pile.len() as int;
    let k = deal_count(n);
    GameState {
        pile: s.pile.subrange(0, n - k),
        board: s.board + s.pile.subrange(n - k, n).reverse(),
        ..s
    }
}

/// Deals until the board holds at least twelve cards or the pile is empty.
pub open spec fn refilled(s: GameState) -> GameState
    decreases s.pile.len(),
{
    if s.board.len() < BOARD_SIZE && s.pile.len() > 0 {
        refilled(dealt(s))
    } else {
        s
    }
}

/// The smallest of three positions.
pub open spec fn low_of(i: int, j: int, k: int) -> int {
    if i <= j && i <= k {
        i
    } else if j <= k {
        j
    } else {
        k
    }
}

/// The largest of three positions.
pub open spec fn high_of(i: int, j: int, k: int) -> int {
    if i >= j && i >= k {
        i
    } else if j >= k {
        j
    } else {
        k
    }
}

/// The board without the cards at three distinct positions, the others kept
/// in order. The highest position goes first, so that the other two do not
/// move.
pub open spec fn without_three(board: Seq<Card>, i: int, j: int, k: int) -> Seq<Card> {
    let lo = low_of(i, j, k);
    let hi = high_of(i, j, k);
    let mid = i + j + k - lo - hi;
    board.remove(hi).remove(mid).remove(lo)
}

/// Three distinct positions on a board of length `len`.
pub open spec fn distinct_in_range(len: int, i: int, j: int, k: int) -> bool {
    &&& 0 <= i < len
    &&& 0 <= j < len
    &&& 0 <= k < len
    &&& i != j && j != k && i != k
}

/// What a move does to the game, and what it comes to.
pub open spec fn move_applied(s: GameState, m: Move, t: GameState, r: Outcome) -> bool {
    match m {
        Move::IdentifySet(i, j, k) => {
            let len = s.board.len();
            if i >= len || j >= len || k >= len {
                r == Outcome::IndexOutOfRange && t == s
            } else if i == j || j == k || i == k {
                r == Outcome::RepeatedIndex && t == s
            } else if !forms_set(s.board[i as int], s.board[j as int], s.board[k as int]) {
                r == Outcome::NotASet && t == s
            } else {
                &&& r == Outcome::SetRemoved
                &&& t == GameState {
                    board: without_three(s.board, i as int, j as int, k as int),
                    removed: s.removed + seq![s.board[i as int], s.board[j as int], s.board[k as int]],
                    ..s
                }
            }
        },
        Move::RequestDeal => {
            if has_set(s.board) {
                r == Outcome::DealDenied && t == s
            } else if s.pile.len() == 0 {
                r == Outcome::PileExhausted && t == s
            } else {
                r == Outcome::Dealt && t == dealt(s)
            }
        },
        Move::RequestHelp => {
            &&& t == s
            &&& if has_set(s.board) {
                r matches Outcome::Hint(a, b, c) && is_first_set(s.board, (a, b, c))
            } else {
                r == Outcome::NoSetAvailable
            }
        },
        Move::RequestExit => r == Outcome::Exited && t == GameState { exited: true, ..s },
    }
}

/// The game cannot go on: the player left, or the pile is empty and no set is
/// on the board.
pub open spec fn is_over_spec(s: GameState) -> bool {
    s.exited || (s.pile.len() == 0 && !has_set(s.board))
}

proof fn lemma_multiset_of_three(a: Seq<Card>, b: Seq<Card>, c: Seq<Card>)
    ensures
        (a + b + c).to_multiset() == a.to_multiset().add(b.to_multiset()).add(c.to_multiset()),
{
    vstd::seq_lib::lemma_multiset_commutative(a, b);
    vstd::seq_lib::lemma_multiset_commutative(a + b, c);
}

/// In a well-formed game the pile, the board and the removed cards together
/// always hold 81 cards.
pub proof fn lemma_cards_conserved(s: GameState)
    requires
        well_formed(s),
    ensures
        s.pile.len() + s.board.len() + s.removed.len() == 81,
{
    let all = s.pile + s.board + s.removed;
    assert(full_deck().len() == 81);
    assert(all.len() == all.to_multiset().len());
    assert(full_deck().len() == full_deck().to_multiset().len());
}

/// A deal keeps every card in the game: it only moves cards from the pile to
/// the board.
pub proof fn lemma_deal_conserves(s: GameState)
    requires
        well_formed(s),
    ensures
        well_formed(dealt(s)),
        dealt(s).pile.len() + dealt(s).board.len() + dealt(s).removed.len() == 81,
{
    let n = s.pile.len() as int;
    let k = deal_count(n);
    let low = s.pile.subrange(0, n - k);
    let top = s.pile.subrange(n - k, n);
    assert(s.pile =~= low + top);
    vstd::seq_lib::lemma_multiset_commutative(low, top);
    vstd::seq_lib::lemma_multiset_commutative(s.board, top.reverse());
    top.lemma_reverse_to_multiset();
    lemma_multiset_of_three(s.pile, s.board, s.removed);
    lemma_multiset_of_three(low, s.board + top.reverse(), s.removed);
    broadcast use vstd::multiset::group_multiset_axioms;

    assert((dealt(s).pile + dealt(s).board + dealt(s).removed).to_multiset() =~= (s.pile + s.board
        + s.removed).to_multiset());
    lemma_cards_conserved(dealt(s));
}

/// A deal only moves cards from the pile to the board: together they hold
/// as many cards as before, and the removed cards are untouched.
pub proof fn lemma_deal_keeps_card_count(s: GameState)
    ensures
        dealt(s).pile.len() + dealt(s).board.len() == s.pile.len() + s.board.len(),
        dealt(s).removed == s.removed,
{
}

/// The position on the board that the card at position `p` of the board
/// without the cards at `lo < mid < hi` came from.
pub open spec fn kept_position(p: int, lo: int, mid: int, hi: int) -> int {
    if p < lo {
        p
    } else if p + 1 < mid {
        p + 1
    } else if p + 2 < hi {
        p + 2
    } else {
        p + 3
    }
}

/// Taking a set off the board keeps the other cards in their order: the card
/// at each position of the new board is the next card of the old board that
/// was not taken.
pub proof fn lemma_remove_three_keeps_order(board: Seq<Card>, i: int, j: int, k: int)
    requires
        distinct_in_range(board.len() as int, i, j, k),
    ensures
        forall|p: int|
            0 <= p < board.len() - 3 ==> #[trigger] without_three(board, i, j, k)[p]
                == board[kept_position(
                p,
                low_of(i, j, k),
                i + j + k - low_of(i, j, k) - high_of(i, j, k),
                high_of(i, j, k),
            )],
{
    let lo = low_of(i, j, k);
    let hi = high_of(i, j, k);
    let mid = i + j + k - lo - hi;
    assert(lo < mid < hi);
    let s1 = board.remove(hi);
    let s2 = s1.remove(mid);
    let s3 = s2.remove(lo);
    assert forall|p: int| 0 <= p < board.len() - 3 implies #[trigger] s3[p] == board[kept_position(
        p,
        lo,
        mid,
        hi,
    )] by {
        let q = if p < lo { p } else { p + 1 };
        assert(s3[p] == s2[q]);
        let r = if q < mid { q } else { q + 1 };
        assert(s2[q] == s1[r]);
        let t = if r < hi { r } else { r + 1 };
        assert(s1[r] == board[t]);
    }
}

/// Taking a set off the board: the board loses exactly three cards, those
/// are the cards at the three given positions, and the result does not
/// depend on the order in which the positions were given.
pub proof fn lemma_remove_three(board: Seq<Card>, i: int, j: int, k: int)
    requires
        distinct_in_range(board.len() as int, i, j, k),
    ensures
        without_three(board, i, j, k).len() == board.len() - 3,
        without_three(board, i, j, k).to_multiset().add(seq![board[i], board[j], board[k]].to_multiset())
            == board.to_multiset(),
        without_three(board, i, j, k) == without_three(board, j, i, k),
        without_three(board, i, j, k) == without_three(board, i, k, j),
        without_three(board, i, j, k) == without_three(board, k, j, i),
        without_three(board, i, j, k) == without_three(board, j, k, i),
        without_three(board, i, j, k) == without_three(board, k, i, j),
{
    broadcast use vstd::multiset::group_multiset_axioms;

    let lo = low_of(i, j, k);
    let hi = high_of(i, j, k);
    let mid = i + j + k - lo - hi;
    assert(lo < mid < hi);
    let s1 = board.remove(hi);
    let s2 = s1.remove(mid);
    assert(s1[mid] == board[mid]);
    assert(s2[lo] == board[lo]);
    let three = seq![board[i], board[j], board[k]];
    assert(three =~= seq![board[i]].push(board[j]).push(board[k]));
    assert(seq![board[i]] =~= Seq::<Card>::empty().push(board[i]));
    assert(three.to_multiset() =~= Multiset::empty().insert(board[i]).insert(board[j]).insert(
        board[k],
    ));
    assert(without_three(board, i, j, k).to_multiset().add(three.to_multiset())
        =~= board.to_multiset());
}

/// A request to deal while a set is on the board is turned down, and the
/// game, its pile included, stays as it was.
pub proof fn lemma_deal_denied_while_set_on_board(s: GameState, t: GameState, r: Outcome)
    requires
        move_applied(s, Move::RequestDeal, t, r),
        has_set(s.board),
    ensures
        r == Outcome::DealDenied,
        t.pile == s.pile,
        t == s,
{
}

impl Game {
    /// A game with the given pile, an empty board, nothing removed yet.
    pub fn with_pile(pile: Vec<Card>, move_provider: DummyInputProvider) -> (game: Game)
        requires
            pile@.to_multiset() == full_deck().to_multiset(),
        ensures
            game@ == (GameState { pile: pile@, board: Seq::empty(), removed: Seq::empty(), exited: false }),
            well_formed(game@),
    {
        let game = Game {
            pile,
            board: Vec::new(),
            removed: Ghost(Seq::empty()),
            exited: false,
            move_provider,
        };
        assert(game.pile@ + game.board@ + game.removed@ =~= game.pile@);
        game
    }

    /// A new game: the full deck, shuffled, as the pile, and an empty board.
    pub fn initialize(move_provider: DummyInputProvider) -> (game: Game)
        ensures
            game@.pile.to_multiset() == full_deck().to_multiset(),
            exists|picks: Seq<usize>|
                fisher_yates_picks(picks, 81) && game@.pile == swaps_applied(full_deck(), picks),
            game@.pile.len() == 81,
            game@.board.len() == 0,
            game@.removed.len() == 0,
            !game@.exited,
            well_formed(game@),
    {
        let deck = initial_deck();
        let pile = shuffle(&deck);
        Game::with_pile(pile, move_provider)
    }

    /// The cards on the board, in order.
    pub fn board(&self) -> (r: &Vec<Card>)
        ensures
            r@ == self@.board,
    {
        &self.board
    }

    /// The cards of the pile, the top last.
    pub fn pile(&self) -> (r: &Vec<Card>)
        ensures
            r@ == self@.pile,
    {
        &self.pile
    }

    /// Whether the player has left the game.
    pub fn has_exited(&self) -> (r: bool)
        ensures
            r == self@.exited,
    {
        self.exited
    }

    /// One deal: up to three cards from the top of the pile to the end of the
    /// board.
    fn deal_three_cards(&mut self)
        requires
            well_formed(old(self)@),
        ensures
            final(self)@ == dealt(old(self)@),
            well_formed(final(self)@),
    {
        proof {
            lemma_deal_conserves(self@);
            lemma_cards_conserved(self@);
        }
        let ghost s = self@;
        let ghost n = s.pile.len() as int;
        let mut dealt_now: usize = 0;
        while dealt_now < 3 && self.pile.len() > 0
            invariant
                well_formed(s),
                n == s.pile.len(),
                s.board.len() <= 81,
                dealt_now <= 3,
                dealt_now <= n,
                dealt_now < 3 && dealt_now < n ==> self.pile@.len() > 0,
                self.pile@.len() == n - dealt_now,
                self.pile@ == s.pile.subrange(0, n - dealt_now),
                self.board@ == s.board + s.pile.subrange(n - dealt_now, n).reverse(),
                self.removed@ == s.removed,
                self.exited == s.exited,
            decreases 3 - dealt_now,
        {
            let card = self.pile.pop().unwrap();
            self.board.push(card);
            dealt_now = dealt_now + 1;
            proof {
                assert(s.pile.subrange(n - dealt_now, n).reverse() =~= s.pile.subrange(
                    n - dealt_now + 1,
                    n,
                ).reverse().push(card));
                assert(self.pile@ =~= s.pile.subrange(0, n - dealt_now));
            }
        }
        assert(dealt_now == deal_count(n));
        assert(self@ == dealt(s));
    }

    /// Deals until the board holds at least twelve cards or the pile is
    /// empty.
    pub fn refill_board(&mut self)
        requires
            well_formed(old(self)@),
        ensures
            final(self)@ == refilled(old(self)@),
            well_formed(final(self)@),
    {
        let ghost s = self@;
        while self.board.len() < BOARD_SIZE && self.pile.len() > 0
            invariant
                well_formed(self@),
                refilled(self@) == refilled(s),
            decreases self@.pile.len(),
        {
            self.deal_three_cards();
        }
    }

    /// Takes the cards at three distinct board positions off the board, the
    /// highest position first so that the other two do not move.
    fn remove_cards(&mut self, index_0: usize, index_1: usize, index_2: usize)
        requires
            distinct_in_range(old(self)@.board.len() as int, index_0 as int, index_1 as int, index_2 as int),
        ensures
            final(self)@ == (GameState {
                board: without_three(old(self)@.board, index_0 as int, index_1 as int, index_2 as int),
                removed: old(self)@.removed + seq![
                    old(self)@.board[index_0 as int],
                    old(self)@.board[index_1 as int],
                    old(self)@.board[index_2 as int],
                ],
                ..old(self)@
            }),
    {
        let ghost three = seq![self.board[index_0 as int], self.board[index_1 as int], self.board[index_2 as int]];
        let low = if index_0 <= index_1 && index_0 <= index_2 {
            index_0
        } else if index_1 <= index_2 {
            index_1
        } else {
            index_2
        };
        let high = if index_0 >= index_1 && index_0 >= index_2 {
            index_0
        } else if index_1 >= index_2 {
            index_1
        } else {
            index_2
        };
        let middle = if index_0 != low && index_0 != high {
            index_0
        } else if index_1 != low && index_1 != high {
            index_1
        } else {
            index_2
        };
        assert(middle == index_0 + index_1 + index_2 - low - high);
        self.board.remove(high);
        self.board.remove(middle);
        self.board.remove(low);
        self.removed = Ghost(self.removed@ + three);
    }

    /// Carries out one move and says what it came to.
    pub fn apply_move(&mut self, player_move: Move) -> (r: Outcome)
        requires
            well_formed(old(self)@),
        ensures
            move_applied(old(self)@, player_move, final(self)@, r),
            well_formed(final(self)@),
    {
        proof {
            lemma_cards_conserved(self@);
        }
        match player_move {
            Move::IdentifySet(index_0, index_1, index_2) => {
                let len = self.board.len();
                if index_0 >= len || index_1 >= len || index_2 >= len {
                    return Outcome::IndexOutOfRange;
                }
                if index_0 == index_1 || index_1 == index_2 || index_0 == index_2 {
                    return Outcome::RepeatedIndex;
                }
                if !is_set(&self.board[index_0], &self.board[index_1], &self.board[index_2]) {
                    return Outcome::NotASet;
                }
                let ghost s = self@;
                proof {
                    lemma_remove_three(s.board, index_0 as int, index_1 as int, index_2 as int);
                }
                self.remove_cards(index_0, index_1, index_2);
                proof {
                    let three = seq![s.board[index_0 as int], s.board[index_1 as int], s.board[index_2 as int]];
                    let nb = without_three(s.board, index_0 as int, index_1 as int, index_2 as int);
                    broadcast use vstd::multiset::group_multiset_axioms;

                    lemma_multiset_of_three(s.pile, s.board, s.removed);
                    lemma_multiset_of_three(s.pile, nb, s.removed + three);
                    vstd::seq_lib::lemma_multiset_commutative(s.removed, three);
                    assert((self@.pile + self@.board + self@.removed).to_multiset() =~= (s.pile
                        + s.board + s.removed).to_multiset());
                }
                Outcome::SetRemoved
            },
            Move::RequestDeal => {
                let sets = find_set(&self.board);
                if sets.len() > 0 {
                    assert(is_set_triple(self@.board, sets@[0]));
                    return Outcome::DealDenied;
                }
                if self.pile.len() == 0 {
                    return Outcome::PileExhausted;
                }
                self.deal_three_cards();
                Outcome::Dealt
            },
            Move::RequestHelp => {
                let sets = find_set(&self.board);
                if sets.len() > 0 {
                    let first = sets[0];
                    proof {
                        assert forall|u: (usize, usize, usize)| is_set_triple(self@.board, u) implies u
                            == first || triple_before(first, u) by {
                            let n = choose|n: int| 0 <= n < sets@.len() && sets@[n] == u;
                            if n > 0 {
                                assert(triple_before(sets@[0], sets@[n]));
                            }
                        }
                    }
                    Outcome::Hint(first.0, first.1, first.2)
                } else {
                    Outcome::NoSetAvailable
                }
            },
            Move::RequestExit => {
                self.exited = true;
                Outcome::Exited
            },
        }
    }

    /// Whether the game cannot go on: the player left, or the pile is empty
    /// and no set is on the board.
    pub fn is_over(&self) -> (r: bool)
        ensures
            r == is_over_spec(self@),
    {
        if self.exited {
            return true;
        }
        if self.pile.len() > 0 {
            return false;
        }
        let sets = find_set(&self.board);
        if sets.len() > 0 {
            assert(is_set_triple(self@.board, sets@[0]));
        }
        sets.len() == 0
    }
}

} // verus!
