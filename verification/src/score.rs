//! The standard point counts of a hand.
//!
//! Face-card points follow the classic 4-3-2-1 scale (ace, king, queen,
//! jack); long-suit points reward each card beyond four in a suit; and
//! short-suit points reward voids, singletons and doubletons.  All three
//! are functions of the unordered hand.
use vstd::prelude::*;

use crate::card::{valid_card, valid_suit, Card};
use crate::sorting::{count_suit, lemma_suit_cards_all, suit_cards};

verus! {

/// The face-card points of a single card: ace 4, king 3, queen 2, jack 1,
/// all other ranks 0.
pub open spec fn card_points(c: Card) -> int {
    if c.rank > 10 {
        c.rank - 10
    } else {
        0
    }
}

/// The face-card points of a hand: the sum of its cards' points.
pub open spec fn fcp_spec(s: Seq<Card>) -> int
    decreases s.len(),
{
    if s.len() == 0 {
        0
    } else {
        fcp_spec(s.drop_last()) + card_points(s.last())
    }
}

/// How many cards of suit `suit` the hand holds.
pub open spec fn suit_count(s: Seq<Card>, suit: int) -> int {
    suit_cards(s, suit).len() as int
}

/// The long-suit points contributed by one suit holding `n` cards: one
/// point per card beyond four.
pub open spec fn long_pts(n: int) -> int {
    if n > 4 {
        n - 4
    } else {
        0
    }
}

/// The short-suit points contributed by one suit holding `n` cards:
/// three for a void, two for a singleton, one for a doubleton.
pub open spec fn short_pts(n: int) -> int {
    if n == 0 {
        3
    } else if n == 1 {
        2
    } else if n == 2 {
        1
    } else {
        0
    }
}

/// The long-suit points of a hand, summed over the four suits.
pub open spec fn lsp_spec(s: Seq<Card>) -> int {
    long_pts(suit_count(s, 1)) + long_pts(suit_count(s, 2)) + long_pts(suit_count(s, 3))
        + long_pts(suit_count(s, 4))
}

/// The short-suit points of a hand, summed over the four suits.
pub open spec fn ssp_spec(s: Seq<Card>) -> int {
    short_pts(suit_count(s, 1)) + short_pts(suit_count(s, 2)) + short_pts(suit_count(s, 3))
        + short_pts(suit_count(s, 4))
}

/// The total of the three point counts.
pub open spec fn total_spec(s: Seq<Card>) -> int {
    fcp_spec(s) + lsp_spec(s) + ssp_spec(s)
}

/// Face-card points are non-negative and at most four per card.
pub proof fn lemma_fcp_bounds(s: Seq<Card>)
    requires
        forall|i: int| 0 <= i < s.len() ==> valid_card(#[trigger] s[i]),
    ensures
        0 <= fcp_spec(s) <= 4 * s.len(),
    decreases s.len(),
{
    if s.len() > 0 {
        let t = s.drop_last();
        assert(forall|i: int| 0 <= i < t.len() ==> valid_card(#[trigger] t[i]));
        lemma_fcp_bounds(t);
    }
}

/// The scoring boundary cases, per suit: a void scores 3 short-suit points
/// and no long-suit points; a four-card suit scores nothing either way; a
/// thirteen-card suit scores 9 long-suit points.
pub proof fn lemma_scoring_boundaries()
    ensures
        forall|h: Seq<Card>, u: int|
            #[trigger] suit_count(h, u) == 0 ==> short_pts(suit_count(h, u)) == 3 && long_pts(
                suit_count(h, u),
            ) == 0,
        forall|h: Seq<Card>, u: int|
            #[trigger] suit_count(h, u) == 4 ==> short_pts(suit_count(h, u)) == 0 && long_pts(
                suit_count(h, u),
            ) == 0,
        forall|h: Seq<Card>, u: int|
            #[trigger] suit_count(h, u) == 13 ==> long_pts(suit_count(h, u)) == 9,
{
}

proof fn lemma_fcp_remove(s: Seq<Card>, j: int)
    requires
        0 <= j < s.len(),
    ensures
        fcp_spec(s) == fcp_spec(s.remove(j)) + card_points(s[j]),
    decreases s.len(),
{
    if j == s.len() - 1 {
        assert(s.remove(j) =~= s.drop_last());
    } else {
        let t = s.drop_last();
        lemma_fcp_remove(t, j);
        assert(s.remove(j).drop_last() =~= t.remove(j));
        assert(s.remove(j).last() == s.last());
    }
}

proof fn lemma_suit_count_remove(s: Seq<Card>, j: int, u: int)
    requires
        0 <= j < s.len(),
    ensures
        suit_count(s, u) == suit_count(s.remove(j), u) + (if s[j].suit as int == u {
            1int
        } else {
            0int
        }),
    decreases s.len(),
{
    broadcast use vstd::prelude::Seq::lemma_filter_push;

    let t = s.drop_last();
    let c = s.last();
    assert(s =~= t.push(c));
    assert(suit_cards(t.push(c), u) == if c.suit as int == u {
        suit_cards(t, u).push(c)
    } else {
        suit_cards(t, u)
    });
    if j == s.len() - 1 {
        assert(s.remove(j) =~= t);
    } else {
        lemma_suit_count_remove(t, j, u);
        assert(s.remove(j) =~= t.remove(j).push(c));
        assert(suit_cards(t.remove(j).push(c), u) == if c.suit as int == u {
            suit_cards(t.remove(j), u).push(c)
        } else {
            suit_cards(t.remove(j), u)
        });
    }
}

/// The point counts are functions of the unordered hand: two sequences
/// holding the same multiset of cards score identically on every count.
pub proof fn lemma_scores_order_independent(a: Seq<Card>, b: Seq<Card>)
    requires
        a.to_multiset() == b.to_multiset(),
    ensures
        fcp_spec(a) == fcp_spec(b),
        lsp_spec(a) == lsp_spec(b),
        ssp_spec(a) == ssp_spec(b),
        total_spec(a) == total_spec(b),
{
    lemma_fcp_multiset(a, b);
    lemma_suit_count_multiset(a, b, 1);
    lemma_suit_count_multiset(a, b, 2);
    lemma_suit_count_multiset(a, b, 3);
    lemma_suit_count_multiset(a, b, 4);
}

proof fn lemma_fcp_multiset(a: Seq<Card>, b: Seq<Card>)
    requires
        a.to_multiset() == b.to_multiset(),
    ensures
        fcp_spec(a) == fcp_spec(b),
    decreases a.len(),
{
    broadcast use vstd::seq_lib::group_to_multiset_ensures;

    if a.len() == 0 {
        vstd::seq_lib::to_multiset_len(a);
        vstd::seq_lib::to_multiset_len(b);
        assert(b.len() == 0);
    } else {
        let c = a.last();
        let t = a.drop_last();
        assert(a =~= t.push(c));
        assert(a.to_multiset().count(c) > 0);
        assert(b.contains(c));
        let j = choose|j: int| 0 <= j < b.len() && b[j] == c;
        assert(t.to_multiset() =~= b.remove(j).to_multiset()) by {
            assert(a.to_multiset() == t.to_multiset().insert(c));
        }
        lemma_fcp_multiset(t, b.remove(j));
        lemma_fcp_remove(b, j);
    }
}

proof fn lemma_suit_count_multiset(a: Seq<Card>, b: Seq<Card>, u: int)
    requires
        a.to_multiset() == b.to_multiset(),
    ensures
        suit_count(a, u) == suit_count(b, u),
    decreases a.len(),
{
    broadcast use vstd::seq_lib::group_to_multiset_ensures;
    broadcast use vstd::prelude::Seq::lemma_filter_push;

    if a.len() == 0 {
        vstd::seq_lib::to_multiset_len(a);
        vstd::seq_lib::to_multiset_len(b);
        assert(b.len() == 0);
        assert(suit_cards(a, u) == suit_cards(b, u));
    } else {
        let c = a.last();
        let t = a.drop_last();
        assert(a =~= t.push(c));
        assert(a.to_multiset().count(c) > 0);
        assert(b.contains(c));
        let j = choose|j: int| 0 <= j < b.len() && b[j] == c;
        assert(t.to_multiset() =~= b.remove(j).to_multiset()) by {
            assert(a.to_multiset() == t.to_multiset().insert(c));
        }
        lemma_suit_count_multiset(t, b.remove(j), u);
        lemma_suit_count_remove(b, j, u);
        assert(suit_cards(t.push(c), u) == if c.suit as int == u {
            suit_cards(t, u).push(c)
        } else {
            suit_cards(t, u)
        });
    }
}

/// A hand of thirteen cards all in one suit scores 9 long-suit points
/// (all from that suit) and 9 short-suit points (3 for each of the three
/// void suits).
pub proof fn lemma_one_suit_hand(h: Seq<Card>, u: int)
    requires
        h.len() == 13,
        valid_suit(u),
        forall|i: int| 0 <= i < h.len() ==> (#[trigger] h[i]).suit as int == u,
    ensures
        lsp_spec(h) == 9,
        ssp_spec(h) == 9,
{
    lemma_suit_cards_all(h, 1);
    lemma_suit_cards_all(h, 2);
    lemma_suit_cards_all(h, 3);
    lemma_suit_cards_all(h, 4);
}

/// Computes the face-card points of a hand.
pub fn face_card_points(cards: &[Card]) -> (r: usize)
    requires
        cards@.len() <= 52,
        forall|i: int| 0 <= i < cards@.len() ==> valid_card(#[trigger] cards@[i]),
    ensures
        r as int == fcp_spec(cards@),
{
    let ghost s = cards@;
    let mut total: usize = 0;
    let mut i: usize = 0;
    proof {
        assert(s.take(0) =~= Seq::<Card>::empty());
    }
    while i < cards.len()
        invariant
            i <= s.len(),
            s == cards@,
            s.len() <= 52,
            forall|j: int| 0 <= j < s.len() ==> valid_card(#[trigger] s[j]),
            total as int == fcp_spec(s.take(i as int)),
            total <= 4 * i,
        decreases s.len() - i,
    {
        proof {
            assert(s.take(i as int + 1).drop_last() =~= s.take(i as int));
            assert(s.take(i as int + 1).last() == s[i as int]);
        }
        if cards[i].rank > 10 {
            total += cards[i].rank - 10;
        }
        i += 1;
    }
    proof {
        assert(s.take(s.len() as int) =~= s);
    }
    total
}

/// Computes the long-suit points of a hand.
pub fn long_suit_points(cards: &[Card]) -> (r: usize)
    requires
        cards@.len() <= 52,
    ensures
        r as int == lsp_spec(cards@),
{
    let n1 = count_suit(cards, 1);
    let n2 = count_suit(cards, 2);
    let n3 = count_suit(cards, 3);
    let n4 = count_suit(cards, 4);
    let mut pts: usize = 0;
    if n1 > 4 {
        pts += n1 - 4;
    }
    if n2 > 4 {
        pts += n2 - 4;
    }
    if n3 > 4 {
        pts += n3 - 4;
    }
    if n4 > 4 {
        pts += n4 - 4;
    }
    pts
}

/// Computes the short-suit points of a hand.
pub fn short_suit_points(cards: &[Card]) -> (r: usize)
    ensures
        r as int == ssp_spec(cards@),
{
    let mut pts: usize = 0;
    let n1 = count_suit(cards, 1);
    let n2 = count_suit(cards, 2);
    let n3 = count_suit(cards, 3);
    let n4 = count_suit(cards, 4);
    pts += short_points_of_count(n1);
    pts += short_points_of_count(n2);
    pts += short_points_of_count(n3);
    pts += short_points_of_count(n4);
    proof {
        assert(pts as int == ssp_spec(cards@));
    }
    pts
}

/// The short-suit contribution of one suit's card count.
fn short_points_of_count(n: usize) -> (r: usize)
    ensures
        r as int == short_pts(n as int),
        r <= 3,
{
    match n {
        0 => 3,
        1 => 2,
        2 => 1,
        _ => 0,
    }
}

/// Computes the total of the three point counts.
pub fn total_points(cards: &[Card]) -> (r: usize)
    requires
        cards@.len() <= 52,
        forall|i: int| 0 <= i < cards@.len() ==> valid_card(#[trigger] cards@[i]),
    ensures
        r as int == total_spec(cards@),
{
    let f = face_card_points(cards);
    let l = long_suit_points(cards);
    let s = short_suit_points(cards);
    proof {
        lemma_fcp_bounds(cards@);
        broadcast use vstd::seq_lib::group_filter_ensures;

        assert(suit_count(cards@, 1) <= cards@.len());
        assert(suit_count(cards@, 2) <= cards@.len());
        assert(suit_count(cards@, 3) <= cards@.len());
        assert(suit_count(cards@, 4) <= cards@.len());
    }
    f + l + s
}

} // verus!
