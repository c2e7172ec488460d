//! The moves a player makes, and reading them from a line of text.

use vstd::prelude::*;

verus! {

/// One move of a player.
#[derive(Clone, Copy, Debug, PartialEq, Eq, Structural)]
pub enum Move {
    /// Ask for three more cards on the board.
    RequestDeal,
    /// Ask for a hint: a set that is on the board.
    RequestHelp,
    /// Leave the game.
    RequestExit,
    /// Claim that the cards at these three board positions form a set.
    IdentifySet(usize, usize, usize),
}

/// The source of moves that the game is played with: the player at a
/// terminal.
pub struct DummyInputProvider {}

/// Why a line of text is not a move.
#[derive(Clone, Copy, Debug, PartialEq, Eq, Structural)]
pub enum InputError {
    /// The line is no command and does not hold three space-separated words;
    /// the number of words it holds.
    WrongArgumentCount(usize),
    /// The word at this place (0, 1 or 2) is not a board position: not an
    /// integer, or a negative one.
    NotAnInteger(usize),
}

/// The text without its leading and trailing whitespace.
pub uninterp spec fn trimmed(s: Seq<char>) -> Seq<char>;

/// Relies on `str::trim`: the text without leading and trailing whitespace,
/// which depends on the characters of the text alone.
#[verifier::external_body]
fn trim_text<'a>(s: &'a str) -> (r: &'a str)
    ensures
        r@ == trimmed(s@),
{
    s.trim()
}

/// Whether a character is an ASCII decimal digit.
pub open spec fn is_decimal_digit(c: char) -> bool {
    '0' <= c <= '9'
}

/// The value of a string of decimal digits.
pub open spec fn digits_value(s: Seq<char>) -> int
    decreases s.len(),
{
    if s.len() == 0 {
        0
    } else {
        digits_value(s.drop_last()) * 10 + (s.last() as int - '0' as int)
    }
}

/// One or more decimal digits.
pub open spec fn all_digits(s: Seq<char>) -> bool {
    s.len() > 0 && forall|i: int| 0 <= i < s.len() ==> is_decimal_digit(#[trigger] s[i])
}

/// The integer that the text writes in decimal: an optional `+` or `-`,
/// then one or more digits, and nothing else.
pub open spec fn decimal_value(s: Seq<char>) -> Option<int> {
    if s.len() > 0 && s[0] == '-' && all_digits(s.drop_first()) {
        Some(-digits_value(s.drop_first()))
    } else if s.len() > 0 && s[0] == '+' && all_digits(s.drop_first()) {
        Some(digits_value(s.drop_first()))
    } else if all_digits(s) {
        Some(digits_value(s))
    } else {
        None
    }
}

/// The `i32` that the text writes in decimal, if it writes one in range.
pub open spec fn i32_of(s: Seq<char>) -> Option<i32> {
    match decimal_value(s) {
        Some(v) => if i32::MIN <= v <= i32::MAX {
            Some(v as i32)
        } else {
            None
        },
        None => None,
    }
}

/// Relies on `str::parse::<i32>`: it accepts an optional `+` or `-` followed
/// by one or more ASCII digits and nothing else, and fails on any other text
/// and on a value out of the range of `i32`.
#[verifier::external_body]
fn parse_i32(text: &str) -> (r: Option<i32>)
    ensures
        r == i32_of(text@),
{
    text.parse::<i32>().ok()
}

/// The words of the text between single spaces, as `str::split(" ")` cuts
/// it: `n` spaces give `n + 1` words, some of them perhaps empty.
pub open spec fn space_split(s: Seq<char>) -> Seq<Seq<char>>
    decreases s.len(),
{
    if s.len() == 0 {
        seq![Seq::empty()]
    } else if s.last() == ' ' {
        space_split(s.drop_last()).push(Seq::empty())
    } else {
        let words = space_split(s.drop_last());
        words.update(words.len() - 1, words.last().push(s.last()))
    }
}

proof fn lemma_space_split_nonempty(s: Seq<char>)
    ensures
        space_split(s).len() >= 1,
        space_split(s).len() <= s.len() + 1,
    decreases s.len(),
{
    if s.len() > 0 {
        lemma_space_split_nonempty(s.drop_last());
    }
}

/// The views of a sequence of strings.
pub open spec fn texts(v: Seq<String>) -> Seq<Seq<char>> {
    Seq::new(v.len(), |i: int| v[i]@)
}

/// Cuts the text at each space.
fn split_on_spaces(s: &str) -> (r: Vec<String>)
    ensures
        texts(r@) == space_split(s@),
{
    let len = s.unicode_len();
    let mut words: Vec<String> = Vec::new();
    let mut start: usize = 0;
    let mut index: usize = 0;
    proof {
        let none = s@.subrange(0, 0);
        assert(none =~= Seq::<char>::empty());
        assert(texts(words@) =~= Seq::<Seq<char>>::empty());
        assert(texts(words@).push(none) =~= space_split(none));
    }
    while index < len
        invariant
            len == s@.len(),
            start <= index <= len,
            texts(words@).push(s@.subrange(start as int, index as int)) == space_split(
                s@.subrange(0, index as int),
            ),
        decreases len - index,
    {
        let ghost before = s@.subrange(0, index as int);
        let ghost after = s@.subrange(0, index + 1);
        assert(after.drop_last() =~= before);
        let ghost words_before = words@;
        if s.get_char(index) == ' ' {
            let word = String::from_str(s.substring_char(start, index));
            words.push(word);
            start = index + 1;
            assert(texts(words@) =~= texts(words_before).push(word@));
            assert(s@.subrange(start as int, index + 1) =~= Seq::<char>::empty());
        } else {
            assert(s@.subrange(start as int, index + 1) =~= s@.subrange(start as int, index as int).push(
                s@[index as int],
            ));
        }
        index = index + 1;
        proof {
            assert(texts(words@).push(s@.subrange(start as int, index as int)) =~= space_split(after));
        }
    }
    let ghost words_before = words@;
    let last = String::from_str(s.substring_char(start, len));
    words.push(last);
    assert(s@.subrange(0, len as int) =~= s@);
    assert(texts(words@) =~= texts(words_before).push(last@));
    words
}

/// Whether the two texts hold the same characters.
fn same_text(a: &str, b: &str) -> (r: bool)
    ensures
        r == (a@ == b@),
{
    let len = a.unicode_len();
    if len != b.unicode_len() {
        return false;
    }
    let mut index: usize = 0;
    while index < len
        invariant
            len == a@.len() == b@.len(),
            index <= len,
            a@.subrange(0, index as int) == b@.subrange(0, index as int),
        decreases len - index,
    {
        if a.get_char(index) != b.get_char(index) {
            return false;
        }
        assert(a@.subrange(0, index + 1) =~= a@.subrange(0, index as int).push(a@[index as int]));
        assert(b@.subrange(0, index + 1) =~= b@.subrange(0, index as int).push(b@[index as int]));
        index = index + 1;
    }
    assert(a@ =~= a@.subrange(0, len as int));
    assert(b@ =~= b@.subrange(0, len as int));
    true
}

/// The move that a one-word command names: `deal`, `help` or `exit`.
pub open spec fn command_spec(word: Seq<char>) -> Option<Move> {
    if word == "deal"@ {
        Some(Move::RequestDeal)
    } else if word == "help"@ {
        Some(Move::RequestHelp)
    } else if word == "exit"@ {
        Some(Move::RequestExit)
    } else {
        None
    }
}

/// The move that a trimmed line names as a command, if it is one of `deal`,
/// `help` and `exit`.
pub fn command_of(word: &str) -> (r: Option<Move>)
    ensures
        r == command_spec(word@),
{
    if same_text(word, "deal") {
        Some(Move::RequestDeal)
    } else if same_text(word, "help") {
        Some(Move::RequestHelp)
    } else if same_text(word, "exit") {
        Some(Move::RequestExit)
    } else {
        None
    }
}

/// What a line of input asks for: a command, or three board positions
/// separated by single spaces. Surrounding whitespace is ignored, around
/// the line and around each position.
pub open spec fn parsed_input(raw: Seq<char>) -> Result<Move, InputError> {
    let words = space_split(raw);
    match command_spec(trimmed(raw)) {
        Some(m) => Ok(m),
        None => if words.len() != 3 {
            Err(InputError::WrongArgumentCount(words.len() as usize))
        } else {
            match (
                index_spec(trimmed(words[0])),
                index_spec(trimmed(words[1])),
                index_spec(trimmed(words[2])),
            ) {
                (None, _, _) => Err(InputError::NotAnInteger(0)),
                (Some(_), None, _) => Err(InputError::NotAnInteger(1)),
                (Some(_), Some(_), None) => Err(InputError::NotAnInteger(2)),
                (Some(a), Some(b), Some(c)) => Ok(Move::IdentifySet(a, b, c)),
            }
        },
    }
}

/// The board position that a word writes: a decimal `i32` that is not
/// negative. A negative number is no position.
pub open spec fn index_spec(word: Seq<char>) -> Option<usize> {
    match i32_of(word) {
        Some(v) => if v >= 0 {
            Some(v as usize)
        } else {
            None
        },
        None => None,
    }
}

/// Reads a board position from a word that has already been trimmed.
pub fn index_of(word: &str) -> (r: Option<usize>)
    ensures
        r == index_spec(word@),
{
    match parse_i32(word) {
        Some(v) => if v >= 0 {
            Some(v as usize)
        } else {
            None
        },
        None => None,
    }
}

/// The board position written in one of the words, surrounding whitespace
/// ignored.
fn parse_card_index(words: &Vec<String>, input_index: usize) -> (r: Option<usize>)
    requires
        input_index < words@.len(),
    ensures
        r == index_spec(trimmed(words@[input_index as int]@)),
{
    let word = trim_text(words[input_index].as_str());
    index_of(word)
}

/// Reads a move from a line of input: `deal`, `help` or `exit`, or three
/// integers separated by single spaces, each a board position.
pub fn parse_user_input(raw_user_input: &str) -> (r: Result<Move, InputError>)
    ensures
        r == parsed_input(raw_user_input@),
{
    let command = trim_text(raw_user_input);
    match command_of(command) {
        Some(m) => {
            return Ok(m);
        },
        None => {},
    }
    let words = split_on_spaces(raw_user_input);
    proof {
        lemma_space_split_nonempty(raw_user_input@);
    }
    if words.len() != 3 {
        return Err(InputError::WrongArgumentCount(words.len()));
    }
    let card_index_0 = match parse_card_index(&words, 0) {
        Some(n) => n,
        None => {
            return Err(InputError::NotAnInteger(0));
        },
    };
    let card_index_1 = match parse_card_index(&words, 1) {
        Some(n) => n,
        None => {
            return Err(InputError::NotAnInteger(1));
        },
    };
    let card_index_2 = match parse_card_index(&words, 2) {
        Some(n) => n,
        None => {
            return Err(InputError::NotAnInteger(2));
        },
    };
    Ok(Move::IdentifySet(card_index_0, card_index_1, card_index_2))
}

} // verus!
