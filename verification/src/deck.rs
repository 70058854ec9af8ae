//! Deck construction and the random dealer.
//!
//! A deck is the 52-card Cartesian product of the four suits and thirteen
//! ranks.  Dealing shuffles a fresh deck and takes a 13-card prefix.
use vstd::prelude::*;

use rand::seq::SliceRandom;

use crate::card::{valid_card, valid_rank, valid_suit, Card};
use crate::sorting::{display_le, sort_hand, sort_spec};

verus! {

/// The size of a dealt hand.
pub const N_PLAYER: usize = 13;

/// The cards of `suit` with ranks `2..=rank`, in ascending rank order.
pub open spec fn deck_ranks(suit: int, rank: int) -> Seq<Card>
    decreases rank,
{
    if rank < 2 {
        Seq::empty()
    } else {
        deck_ranks(suit, rank - 1).push(Card { rank: rank as usize, suit: suit as usize })
    }
}

/// The cards of suits `1..=suit`, grouped by suit ascending and by rank
/// ascending within each suit.
pub open spec fn deck_suits(suit: int) -> Seq<Card>
    decreases suit,
{
    if suit < 1 {
        Seq::empty()
    } else {
        deck_suits(suit - 1) + deck_ranks(suit, 14)
    }
}

/// The full 52-card deck in construction order.
pub open spec fn deck_spec() -> Seq<Card> {
    deck_suits(4)
}

proof fn lemma_deck_ranks_elems(suit: int, rank: int)
    requires
        1 <= rank <= 14,
    ensures
        deck_ranks(suit, rank).len() == rank - 1,
        forall|i: int|
            0 <= i < rank - 1 ==> #[trigger] deck_ranks(suit, rank)[i] == (Card {
                rank: (i + 2) as usize,
                suit: suit as usize,
            }),
    decreases rank,
{
    if rank > 1 {
        if rank == 2 {
            assert(deck_ranks(suit, 1) =~= Seq::<Card>::empty());
        } else {
            lemma_deck_ranks_elems(suit, rank - 1);
        }
    }
}

proof fn lemma_deck_suits_elems(suit: int)
    requires
        0 <= suit <= 4,
    ensures
        deck_suits(suit).len() == 13 * suit,
        forall|i: int|
            0 <= i < 13 * suit ==> valid_card(#[trigger] deck_suits(suit)[i])
                && deck_suits(suit)[i].suit <= suit,
        deck_suits(suit).no_duplicates(),
        forall|r: int, s: int|
            valid_rank(r) && 1 <= s <= suit ==> #[trigger] deck_suits(suit).contains(
                Card { rank: r as usize, suit: s as usize },
            ),
    decreases suit,
{
    if suit >= 1 {
        lemma_deck_suits_elems(suit - 1);
        lemma_deck_ranks_elems(suit, 14);
        let prev = deck_suits(suit - 1);
        let block = deck_ranks(suit, 14);
        let whole = deck_suits(suit);
        assert(whole == prev + block);
        assert forall|i: int, j: int|
            0 <= i < whole.len() && 0 <= j < whole.len() && i != j implies whole[i] != whole[j] by {
            if i < prev.len() && j < prev.len() {
                assert(prev[i] != prev[j]);
            } else if i >= prev.len() && j >= prev.len() {
                assert(whole[i].rank == i - prev.len() + 2);
                assert(whole[j].rank == j - prev.len() + 2);
            } else if i < prev.len() {
                assert(whole[i].suit <= suit - 1 && whole[j].suit == suit);
            } else {
                assert(whole[j].suit <= suit - 1 && whole[i].suit == suit);
            }
        }
        assert forall|r: int, s: int| valid_rank(r) && 1 <= s <= suit implies #[trigger] whole
            .contains(Card { rank: r as usize, suit: s as usize }) by {
            let c = Card { rank: r as usize, suit: s as usize };
            if s <= suit - 1 {
                assert(prev.contains(c));
                let k = choose|k: int| 0 <= k < prev.len() && prev[k] == c;
                assert(whole[k] == c);
            } else {
                assert(block[r - 2] == c);
                assert(whole[prev.len() + r - 2] == c);
            }
        }
    }
}

/// The deck covers every (rank, suit) pair exactly once: it has 52 cards,
/// all valid, with no duplicates, and contains every valid card.
pub proof fn lemma_deck_props()
    ensures
        deck_spec().len() == 52,
        deck_spec().no_duplicates(),
        forall|i: int| 0 <= i < 52 ==> valid_card(#[trigger] deck_spec()[i]),
        forall|r: int, s: int|
            valid_rank(r) && valid_suit(s) ==> #[trigger] deck_spec().contains(
                Card { rank: r as usize, suit: s as usize },
            ),
{
    lemma_deck_suits_elems(4);
}

/// Builds the full 52-card deck, iterating suits outer and ranks inner.
pub fn new_deck() -> (r: Vec<Card>)
    ensures
        r@ == deck_spec(),
        r@.len() == 52,
{
    let mut cards: Vec<Card> = Vec::new();
    let mut suit: usize = 1;
    proof {
        assert(cards@ =~= deck_suits(0));
    }
    while suit <= 4
        invariant
            1 <= suit <= 5,
            cards@ == deck_suits(suit as int - 1),
        decreases 5 - suit,
    {
        let mut rank: usize = 2;
        proof {
            assert(deck_ranks(suit as int, 1) =~= Seq::<Card>::empty());
            assert(cards@ =~= deck_suits(suit as int - 1) + deck_ranks(suit as int, 1));
        }
        while rank <= 14
            invariant
                1 <= suit <= 4,
                2 <= rank <= 15,
                cards@ == deck_suits(suit as int - 1) + deck_ranks(suit as int, rank as int - 1),
            decreases 15 - rank,
        {
            cards.push(Card { rank, suit });
            proof {
                assert(cards@ =~= deck_suits(suit as int - 1) + deck_ranks(
                    suit as int,
                    rank as int,
                ));
            }
            rank += 1;
        }
        suit += 1;
    }
    proof {
        lemma_deck_props();
    }
    cards
}

/// Relies on rand's `SliceRandom::shuffle`, driven by `rand::rng()`: it
/// permutes the slice in place, so the cards afterwards are exactly the
/// cards before, in some order.
#[verifier::external_body]
fn shuffle_cards(cards: &mut Vec<Card>)
    ensures
        final(cards)@.to_multiset() == old(cards)@.to_multiset(),
{
    let mut r = rand::rng();
    cards.shuffle(&mut r);
}

/// Builds a fresh deck and shuffles it: the same 52 cards in random order.
pub fn new_shuffled_deck() -> (r: Vec<Card>)
    ensures
        r@.to_multiset() == deck_spec().to_multiset(),
        r@.len() == 52,
        r@.no_duplicates(),
        forall|i: int| 0 <= i < r@.len() ==> valid_card(#[trigger] r@[i]),
{
    let mut cards = new_deck();
    shuffle_cards(&mut cards);
    proof {
        broadcast use vstd::seq_lib::to_multiset_contains;

        lemma_deck_props();
        vstd::seq_lib::to_multiset_len(cards@);
        vstd::seq_lib::to_multiset_len(deck_spec());
        deck_spec().lemma_multiset_has_no_duplicates();
        assert forall|i: int| 0 <= i < cards@.len() implies valid_card(#[trigger] cards@[i]) by {
            assert(cards@.to_multiset().count(cards@[i]) > 0);
            assert(deck_spec().contains(cards@[i]));
        }
        assert forall|x: Card| cards@.to_multiset().contains(x) implies cards@.to_multiset().count(
            x,
        ) == 1 by {
            assert(deck_spec().contains(x));
        }
        cards@.lemma_multiset_has_no_duplicates_conv();
    }
    cards
}

/// Deals a fresh random hand: shuffles a new deck, takes the first 13
/// cards, and arranges them in display order.  Whatever the shuffle did,
/// the hand holds exactly 13 distinct valid cards, already sorted (so
/// re-sorting it changes nothing).
pub fn new_hand() -> (r: Vec<Card>)
    ensures
        r@.len() == 13,
        r@.no_duplicates(),
        forall|i: int| 0 <= i < r@.len() ==> valid_card(#[trigger] r@[i]),
        forall|i: int, j: int|
            0 <= i <= j < r@.len() ==> display_le(#[trigger] r@[i], #[trigger] r@[j]),
        r@ == sort_spec(r@),
{
    let deck = new_shuffled_deck();
    let mut hand: Vec<Card> = Vec::new();
    let mut i: usize = 0;
    proof {
        assert(hand@ =~= deck@.subrange(0, 0));
    }
    while i < N_PLAYER
        invariant
            i <= 13,
            deck@.len() == 52,
            deck@.no_duplicates(),
            forall|j: int| 0 <= j < deck@.len() ==> valid_card(#[trigger] deck@[j]),
            hand@ == deck@.subrange(0, i as int),
        decreases 13 - i,
    {
        hand.push(deck[i]);
        proof {
            assert(hand@ =~= deck@.subrange(0, i as int + 1));
        }
        i += 1;
    }
    proof {
        assert(forall|j: int| 0 <= j < hand@.len() ==> hand@[j] == deck@[j]);
        assert(hand@.no_duplicates());
    }
    let sorted = sort_hand(hand.as_slice());
    proof {
        broadcast use vstd::seq_lib::group_to_multiset_ensures;

        crate::sorting::lemma_sort_idempotent(hand@);
        vstd::seq_lib::to_multiset_len(hand@);
        vstd::seq_lib::to_multiset_len(sorted@);
        hand@.lemma_multiset_has_no_duplicates();
        assert forall|x: Card| sorted@.to_multiset().contains(x) implies sorted@.to_multiset()
            .count(x) == 1 by {
            assert(hand@.to_multiset().count(x) == sorted@.to_multiset().count(x));
        }
        sorted@.lemma_multiset_has_no_duplicates_conv();
    }
    sorted
}

} // verus!
