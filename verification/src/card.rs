//! The card model: ranks, suits, and their display glyphs.
//!
//! A rank is an ordinal in `2..=14` (Ace high) and a suit an ordinal in
//! `1..=4` (clubs, diamonds, hearts, spades).  Every glyph is a single
//! character; rank 10 uses the circled-ten character rather than two digits.
use vstd::prelude::*;

verus! {

/// An immutable (rank, suit) pair with value semantics.
#[derive(Copy, Clone, PartialEq, Eq, Structural, Debug)]
pub struct Card {
    pub rank: usize,
    pub suit: usize,
}

/// Rank ordinals run from 2 (deuce) to 14 (ace).
pub open spec fn valid_rank(rank: int) -> bool {
    2 <= rank <= 14
}

/// Suit ordinals run from 1 (clubs) to 4 (spades).
pub open spec fn valid_suit(suit: int) -> bool {
    1 <= suit <= 4
}

pub open spec fn valid_card(c: Card) -> bool {
    valid_rank(c.rank as int) && valid_suit(c.suit as int)
}

/// The display glyph of each rank: the numerals for 2 through 9, the
/// circled-ten character for 10, and J/Q/K/A for the face cards and ace.
pub open spec fn rank_char(rank: int) -> char {
    if rank == 2 {
        '2'
    } else if rank == 3 {
        '3'
    } else if rank == 4 {
        '4'
    } else if rank == 5 {
        '5'
    } else if rank == 6 {
        '6'
    } else if rank == 7 {
        '7'
    } else if rank == 8 {
        '8'
    } else if rank == 9 {
        '9'
    } else if rank == 10 {
        '\u{2469}'
    } else if rank == 11 {
        'J'
    } else if rank == 12 {
        'Q'
    } else if rank == 13 {
        'K'
    } else {
        'A'
    }
}

/// The display glyph of each suit: club, diamond, heart, spade.
pub open spec fn suit_char(suit: int) -> char {
    if suit == 1 {
        '\u{2663}'
    } else if suit == 2 {
        '\u{2666}'
    } else if suit == 3 {
        '\u{2665}'
    } else {
        '\u{2660}'
    }
}

/// Distinct ranks always display as distinct glyphs.
pub proof fn lemma_rank_glyphs_distinct()
    ensures
        forall|r1: int, r2: int|
            valid_rank(r1) && valid_rank(r2) && r1 != r2 ==> rank_char(r1) != rank_char(r2),
{
}

/// Distinct suits always display as distinct glyphs.
pub proof fn lemma_suit_glyphs_distinct()
    ensures
        forall|s1: int, s2: int|
            valid_suit(s1) && valid_suit(s2) && s1 != s2 ==> suit_char(s1) != suit_char(s2),
{
}

/// The glyph of a rank, as a borrowed one-character string.
pub fn rank_glyph_str(rank: usize) -> (r: &'static str)
    requires
        valid_rank(rank as int),
    ensures
        r@ == seq![rank_char(rank as int)],
{
    proof {
        reveal_strlit("2");
        reveal_strlit("3");
        reveal_strlit("4");
        reveal_strlit("5");
        reveal_strlit("6");
        reveal_strlit("7");
        reveal_strlit("8");
        reveal_strlit("9");
        reveal_strlit("\u{2469}");
        reveal_strlit("J");
        reveal_strlit("Q");
        reveal_strlit("K");
        reveal_strlit("A");
    }
    let r: &'static str = match rank {
        2 => "2",
        3 => "3",
        4 => "4",
        5 => "5",
        6 => "6",
        7 => "7",
        8 => "8",
        9 => "9",
        10 => "\u{2469}",
        11 => "J",
        12 => "Q",
        13 => "K",
        _ => "A",
    };
    proof {
        assert(r@ =~= seq![rank_char(rank as int)]);
    }
    r
}

/// The glyph of a suit, as a borrowed one-character string.
pub fn suit_glyph_str(suit: usize) -> (r: &'static str)
    requires
        valid_suit(suit as int),
    ensures
        r@ == seq![suit_char(suit as int)],
{
    proof {
        reveal_strlit("\u{2663}");
        reveal_strlit("\u{2666}");
        reveal_strlit("\u{2665}");
        reveal_strlit("\u{2660}");
    }
    let r: &'static str = match suit {
        1 => "\u{2663}",
        2 => "\u{2666}",
        3 => "\u{2665}",
        _ => "\u{2660}",
    };
    proof {
        assert(r@ =~= seq![suit_char(suit as int)]);
    }
    r
}

/// The glyph of a rank, as an owned one-character string.
pub fn rank_repr(rank: usize) -> (r: String)
    requires
        valid_rank(rank as int),
    ensures
        r@ == seq![rank_char(rank as int)],
{
    String::from_str(rank_glyph_str(rank))
}

/// The glyph of a suit, as an owned one-character string.
pub fn suit_repr(suit: usize) -> (r: String)
    requires
        valid_suit(suit as int),
    ensures
        r@ == seq![suit_char(suit as int)],
{
    String::from_str(suit_glyph_str(suit))
}

/// The sequence of all rank ordinals in ascending order.
pub open spec fn rank_codes_spec() -> Seq<usize> {
    seq![2usize, 3, 4, 5, 6, 7, 8, 9, 10, 11, 12, 13, 14]
}

/// The sequence of all suit ordinals in ascending order.
pub open spec fn suit_codes_spec() -> Seq<usize> {
    seq![1usize, 2, 3, 4]
}

/// All rank ordinals, ascending.
pub fn rank_codes() -> (r: Vec<usize>)
    ensures
        r@ == rank_codes_spec(),
{
    let r: Vec<usize> = vec![2, 3, 4, 5, 6, 7, 8, 9, 10, 11, 12, 13, 14];
    proof {
        assert(r@ =~= rank_codes_spec());
    }
    r
}

/// All suit ordinals, ascending.
pub fn suit_codes() -> (r: Vec<usize>)
    ensures
        r@ == suit_codes_spec(),
{
    let r: Vec<usize> = vec![1, 2, 3, 4];
    proof {
        assert(r@ =~= suit_codes_spec());
    }
    r
}

} // verus!
