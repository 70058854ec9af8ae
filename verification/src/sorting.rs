//! The canonical display order of a hand.
//!
//! Cards are arranged by suit ascending (clubs first) and, within a suit,
//! by rank descending (ace down to deuce).  The order is a pure function of
//! the multiset of cards, so sorting is deterministic and idempotent.
use vstd::prelude::*;

use crate::card::{valid_card, valid_suit, Card};

verus! {

/// The cards of `s` whose suit is `suit` and rank is `rank`, in input order.
pub open spec fn bucket(s: Seq<Card>, suit: int, rank: int) -> Seq<Card> {
    s.filter(|c: Card| c.suit as int == suit && c.rank as int == rank)
}

/// The cards of `s` whose suit is `suit`, in input order.
pub open spec fn suit_cards(s: Seq<Card>, suit: int) -> Seq<Card> {
    s.filter(|c: Card| c.suit as int == suit)
}

/// The cards of `s` of suit `suit` with ranks from 14 down to `rank`,
/// grouped by rank descending.
pub open spec fn ranks_down_to(s: Seq<Card>, suit: int, rank: int) -> Seq<Card>
    decreases 15 - rank,
{
    if rank > 14 {
        Seq::empty()
    } else {
        ranks_down_to(s, suit, rank + 1) + bucket(s, suit, rank)
    }
}

/// One suit's display block: that suit's cards, rank descending.
pub open spec fn suit_block(s: Seq<Card>, suit: int) -> Seq<Card> {
    ranks_down_to(s, suit, 2)
}

/// The display blocks of suits `1..=suit`, concatenated suit-ascending.
pub open spec fn suits_up_to(s: Seq<Card>, suit: int) -> Seq<Card>
    decreases suit,
{
    if suit < 1 {
        Seq::empty()
    } else {
        suits_up_to(s, suit - 1) + suit_block(s, suit)
    }
}

/// The canonical display order of a hand: suit ascending, rank descending.
pub open spec fn sort_spec(s: Seq<Card>) -> Seq<Card> {
    suits_up_to(s, 4)
}

/// Display precedence: `a` may stand at or before `b` in a sorted hand.
pub open spec fn display_le(a: Card, b: Card) -> bool {
    a.suit < b.suit || (a.suit == b.suit && b.rank <= a.rank)
}

proof fn lemma_ranks_down_to_empty(suit: int, rank: int)
    ensures
        ranks_down_to(Seq::empty(), suit, rank) == Seq::<Card>::empty(),
    decreases 15 - rank,
{
    reveal(Seq::filter);
    if rank <= 14 {
        lemma_ranks_down_to_empty(suit, rank + 1);
        assert(ranks_down_to(Seq::empty(), suit, rank) =~= Seq::<Card>::empty());
    }
}

proof fn lemma_suits_up_to_empty(suit: int)
    ensures
        suits_up_to(Seq::empty(), suit) == Seq::<Card>::empty(),
    decreases suit,
{
    if suit >= 1 {
        lemma_suits_up_to_empty(suit - 1);
        lemma_ranks_down_to_empty(suit, 2);
        assert(suits_up_to(Seq::empty(), suit) =~= Seq::<Card>::empty());
    }
}

proof fn lemma_ranks_down_to_push(s: Seq<Card>, c: Card, suit: int, rank: int)
    ensures
        ranks_down_to(s.push(c), suit, rank).to_multiset() == if c.suit as int == suit && rank
            <= c.rank as int <= 14 {
            ranks_down_to(s, suit, rank).to_multiset().insert(c)
        } else {
            ranks_down_to(s, suit, rank).to_multiset()
        },
    decreases 15 - rank,
{
    broadcast use vstd::multiset::group_multiset_axioms;
    broadcast use vstd::prelude::Seq::lemma_filter_push;

    if rank <= 14 {
        lemma_ranks_down_to_push(s, c, suit, rank + 1);
        vstd::seq_lib::lemma_multiset_commutative(
            ranks_down_to(s.push(c), suit, rank + 1),
            bucket(s.push(c), suit, rank),
        );
        vstd::seq_lib::lemma_multiset_commutative(
            ranks_down_to(s, suit, rank + 1),
            bucket(s, suit, rank),
        );
        if c.suit as int == suit && c.rank as int == rank {
            vstd::seq_lib::to_multiset_build(bucket(s, suit, rank), c);
            assert(ranks_down_to(s.push(c), suit, rank).to_multiset() =~= ranks_down_to(
                s,
                suit,
                rank,
            ).to_multiset().insert(c));
        } else if c.suit as int == suit && rank + 1 <= c.rank as int <= 14 {
            assert(ranks_down_to(s.push(c), suit, rank).to_multiset() =~= ranks_down_to(
                s,
                suit,
                rank,
            ).to_multiset().insert(c));
        } else {
            assert(ranks_down_to(s.push(c), suit, rank).to_multiset() =~= ranks_down_to(
                s,
                suit,
                rank,
            ).to_multiset());
        }
    }
}

proof fn lemma_suits_up_to_push(s: Seq<Card>, c: Card, suit: int)
    ensures
        suits_up_to(s.push(c), suit).to_multiset() == if 1 <= c.suit as int <= suit && 2
            <= c.rank as int <= 14 {
            suits_up_to(s, suit).to_multiset().insert(c)
        } else {
            suits_up_to(s, suit).to_multiset()
        },
    decreases suit,
{
    broadcast use vstd::multiset::group_multiset_axioms;

    if suit >= 1 {
        lemma_suits_up_to_push(s, c, suit - 1);
        lemma_ranks_down_to_push(s, c, suit, 2);
        vstd::seq_lib::lemma_multiset_commutative(
            suits_up_to(s.push(c), suit - 1),
            suit_block(s.push(c), suit),
        );
        vstd::seq_lib::lemma_multiset_commutative(suits_up_to(s, suit - 1), suit_block(s, suit));
        if 1 <= c.suit as int <= suit && 2 <= c.rank as int <= 14 {
            assert(suits_up_to(s.push(c), suit).to_multiset() =~= suits_up_to(
                s,
                suit,
            ).to_multiset().insert(c));
        } else {
            assert(suits_up_to(s.push(c), suit).to_multiset() =~= suits_up_to(
                s,
                suit,
            ).to_multiset());
        }
    }
}

/// Sorting neither adds, drops nor changes any card: the sorted sequence
/// holds exactly the cards of the hand.
pub proof fn lemma_sort_spec_multiset(s: Seq<Card>)
    requires
        forall|i: int| 0 <= i < s.len() ==> valid_card(#[trigger] s[i]),
    ensures
        sort_spec(s).to_multiset() == s.to_multiset(),
    decreases s.len(),
{
    if s.len() == 0 {
        assert(s =~= Seq::<Card>::empty());
        lemma_suits_up_to_empty(4);
    } else {
        let t = s.drop_last();
        let c = s.last();
        assert(s =~= t.push(c));
        assert(forall|i: int| 0 <= i < t.len() ==> valid_card(#[trigger] t[i]));
        lemma_sort_spec_multiset(t);
        lemma_suits_up_to_push(t, c, 4);
        vstd::seq_lib::to_multiset_build(t, c);
    }
}

proof fn lemma_ranks_down_to_elems(s: Seq<Card>, suit: int, rank: int)
    ensures
        forall|i: int|
            0 <= i < ranks_down_to(s, suit, rank).len() ==> (#[trigger] ranks_down_to(
                s,
                suit,
                rank,
            )[i]).suit as int == suit && rank <= ranks_down_to(s, suit, rank)[i].rank as int <= 14,
        forall|i: int, j: int|
            0 <= i <= j < ranks_down_to(s, suit, rank).len() ==> (#[trigger] ranks_down_to(
                s,
                suit,
                rank,
            )[i]).rank >= (#[trigger] ranks_down_to(s, suit, rank)[j]).rank,
    decreases 15 - rank,
{
    broadcast use vstd::seq_lib::group_filter_ensures;

    if rank <= 14 {
        lemma_ranks_down_to_elems(s, suit, rank + 1);
        let prev = ranks_down_to(s, suit, rank + 1);
        let whole = ranks_down_to(s, suit, rank);
        assert forall|i: int| 0 <= i < whole.len() implies (#[trigger] whole[i]).suit as int == suit
            && rank <= whole[i].rank as int <= 14 by {
            if i >= prev.len() {
                assert(whole[i] == bucket(s, suit, rank)[i - prev.len()]);
            }
        }
        assert forall|i: int, j: int|
            0 <= i <= j < whole.len() implies (#[trigger] whole[i]).rank
            >= (#[trigger] whole[j]).rank by {
            if j >= prev.len() {
                assert(whole[j] == bucket(s, suit, rank)[j - prev.len()]);
                assert(whole[j].rank as int == rank);
            }
            if i >= prev.len() {
                assert(whole[i] == bucket(s, suit, rank)[i - prev.len()]);
                assert(whole[i].rank as int == rank);
            }
        }
    }
}

proof fn lemma_suits_up_to_elems(s: Seq<Card>, suit: int)
    ensures
        forall|i: int|
            0 <= i < suits_up_to(s, suit).len() ==> 1 <= (#[trigger] suits_up_to(s, suit)[i]).suit
                as int <= suit && 2 <= suits_up_to(s, suit)[i].rank as int <= 14,
        forall|i: int, j: int|
            0 <= i <= j < suits_up_to(s, suit).len() ==> display_le(
                #[trigger] suits_up_to(s, suit)[i],
                #[trigger] suits_up_to(s, suit)[j],
            ),
    decreases suit,
{
    if suit >= 1 {
        lemma_suits_up_to_elems(s, suit - 1);
        lemma_ranks_down_to_elems(s, suit, 2);
        let prev = suits_up_to(s, suit - 1);
        let block = suit_block(s, suit);
        let whole = suits_up_to(s, suit);
        assert forall|i: int| 0 <= i < whole.len() implies 1 <= (#[trigger] whole[i]).suit as int
            <= suit && 2 <= whole[i].rank as int <= 14 by {
            if i >= prev.len() {
                assert(whole[i] == block[i - prev.len()]);
            }
        }
        assert forall|i: int, j: int| 0 <= i <= j < whole.len() implies display_le(
            #[trigger] whole[i],
            #[trigger] whole[j],
        ) by {
            if i < prev.len() && j >= prev.len() {
                assert(whole[j] == block[j - prev.len()]);
                assert(whole[i].suit < suit);
            } else if i >= prev.len() {
                assert(whole[i] == block[i - prev.len()]);
                assert(whole[j] == block[j - prev.len()]);
            }
        }
    }
}

/// Every card of a sorted hand is valid, and the sequence is ordered by
/// suit ascending, rank descending.
pub proof fn lemma_sort_spec_sorted(s: Seq<Card>)
    ensures
        forall|i: int| 0 <= i < sort_spec(s).len() ==> valid_card(#[trigger] sort_spec(s)[i]),
        forall|i: int, j: int|
            0 <= i <= j < sort_spec(s).len() ==> display_le(
                #[trigger] sort_spec(s)[i],
                #[trigger] sort_spec(s)[j],
            ),
{
    lemma_suits_up_to_elems(s, 4);
}

proof fn lemma_bucket_count(s: Seq<Card>, v: Card)
    ensures
        bucket(s, v.suit as int, v.rank as int).len() == s.to_multiset().count(v),
    decreases s.len(),
{
    broadcast use vstd::multiset::group_multiset_axioms;
    broadcast use vstd::prelude::Seq::lemma_filter_push;
    broadcast use vstd::seq_lib::group_to_multiset_ensures;

    let pred = |c: Card| c.suit as int == v.suit as int && c.rank as int == v.rank as int;
    if s.len() == 0 {
        reveal(Seq::filter);
        assert(s.to_multiset().len() == 0);
        assert(s.to_multiset().count(v) == 0);
    } else {
        let t = s.drop_last();
        let c = s.last();
        assert(s =~= t.push(c));
        lemma_bucket_count(t, v);
        assert(s.to_multiset() == t.to_multiset().insert(c));
        assert(pred(c) <==> c == v);
    }
}

proof fn lemma_bucket_eq(a: Seq<Card>, b: Seq<Card>, suit: int, rank: int)
    requires
        a.to_multiset() == b.to_multiset(),
        1 <= suit <= 4,
        2 <= rank <= 14,
    ensures
        bucket(a, suit, rank) == bucket(b, suit, rank),
{
    broadcast use vstd::seq_lib::group_filter_ensures;

    let v = Card { rank: rank as usize, suit: suit as usize };
    lemma_bucket_count(a, v);
    lemma_bucket_count(b, v);
    let ba = bucket(a, suit, rank);
    let bb = bucket(b, suit, rank);
    assert forall|i: int| 0 <= i < ba.len() implies ba[i] == bb[i] by {
        assert(ba[i] == v);
        assert(bb[i] == v);
    }
    assert(ba =~= bb);
}

proof fn lemma_ranks_down_to_eq(a: Seq<Card>, b: Seq<Card>, suit: int, rank: int)
    requires
        a.to_multiset() == b.to_multiset(),
        1 <= suit <= 4,
        2 <= rank <= 15,
    ensures
        ranks_down_to(a, suit, rank) == ranks_down_to(b, suit, rank),
    decreases 15 - rank,
{
    if rank <= 14 {
        lemma_ranks_down_to_eq(a, b, suit, rank + 1);
        lemma_bucket_eq(a, b, suit, rank);
    }
}

proof fn lemma_suits_up_to_eq(a: Seq<Card>, b: Seq<Card>, suit: int)
    requires
        a.to_multiset() == b.to_multiset(),
        0 <= suit <= 4,
    ensures
        suits_up_to(a, suit) == suits_up_to(b, suit),
    decreases suit,
{
    if suit >= 1 {
        lemma_suits_up_to_eq(a, b, suit - 1);
        lemma_ranks_down_to_eq(a, b, suit, 2);
    }
}

/// Sorting is deterministic over the unordered hand: two sequences holding
/// the same multiset of cards sort to the identical sequence.
pub proof fn lemma_sort_deterministic(a: Seq<Card>, b: Seq<Card>)
    requires
        a.to_multiset() == b.to_multiset(),
    ensures
        sort_spec(a) == sort_spec(b),
{
    lemma_suits_up_to_eq(a, b, 4);
}

/// Sorting an already sorted hand changes nothing.
pub proof fn lemma_sort_idempotent(s: Seq<Card>)
    requires
        forall|i: int| 0 <= i < s.len() ==> valid_card(#[trigger] s[i]),
    ensures
        sort_spec(sort_spec(s)) == sort_spec(s),
{
    lemma_sort_spec_multiset(s);
    lemma_sort_deterministic(sort_spec(s), s);
}

pub(crate) proof fn lemma_suit_cards_all(s: Seq<Card>, u: int)
    ensures
        (forall|i: int| 0 <= i < s.len() ==> (#[trigger] s[i]).suit as int == u) ==> suit_cards(
            s,
            u,
        ) == s,
        (forall|i: int| 0 <= i < s.len() ==> (#[trigger] s[i]).suit as int != u) ==> suit_cards(
            s,
            u,
        ) == Seq::<Card>::empty(),
    decreases s.len(),
{
    reveal(Seq::filter);
    if s.len() > 0 {
        let t = s.drop_last();
        lemma_suit_cards_all(t, u);
        assert(forall|i: int| 0 <= i < t.len() ==> t[i] == s[i]);
        if forall|i: int| 0 <= i < s.len() ==> (#[trigger] s[i]).suit as int == u {
            assert(suit_cards(s, u) =~= s);
        }
        if forall|i: int| 0 <= i < s.len() ==> (#[trigger] s[i]).suit as int != u {
            assert(suit_cards(s, u) =~= Seq::<Card>::empty());
        }
    }
}

proof fn lemma_suit_cards_add(x: Seq<Card>, y: Seq<Card>, u: int)
    ensures
        suit_cards(x + y, u) == suit_cards(x, u) + suit_cards(y, u),
{
    broadcast use vstd::prelude::Seq::filter_distributes_over_add;

    assert(suit_cards(x + y, u) == suit_cards(x, u) + suit_cards(y, u));
}

/// Grouping a sorted hand by suit recovers exactly the suit groupings
/// derived independently from the unsorted hand: for each suit, the cards
/// of that suit in `sort_spec(h)` are that suit's block, rank descending.
pub proof fn lemma_sort_groups_by_suit(h: Seq<Card>, u: int)
    requires
        valid_suit(u),
    ensures
        suit_cards(sort_spec(h), u) == suit_block(h, u),
{
    reveal(Seq::filter);
    let b1 = suit_block(h, 1);
    let b2 = suit_block(h, 2);
    let b3 = suit_block(h, 3);
    let b4 = suit_block(h, 4);
    assert(suits_up_to(h, 0) == Seq::<Card>::empty());
    assert(suits_up_to(h, 1) == Seq::<Card>::empty() + b1);
    assert(suits_up_to(h, 2) == (Seq::<Card>::empty() + b1) + b2);
    assert(suits_up_to(h, 3) == ((Seq::<Card>::empty() + b1) + b2) + b3);
    assert(sort_spec(h) == (((Seq::<Card>::empty() + b1) + b2) + b3) + b4);
    lemma_suit_cards_add(((Seq::<Card>::empty() + b1) + b2) + b3, b4, u);
    lemma_suit_cards_add((Seq::<Card>::empty() + b1) + b2, b3, u);
    lemma_suit_cards_add(Seq::<Card>::empty() + b1, b2, u);
    lemma_suit_cards_add(Seq::<Card>::empty(), b1, u);
    assert(suit_cards(Seq::<Card>::empty(), u) =~= Seq::<Card>::empty());
    lemma_ranks_down_to_elems(h, 1, 2);
    lemma_ranks_down_to_elems(h, 2, 2);
    lemma_ranks_down_to_elems(h, 3, 2);
    lemma_ranks_down_to_elems(h, 4, 2);
    lemma_suit_cards_all(b1, u);
    lemma_suit_cards_all(b2, u);
    lemma_suit_cards_all(b3, u);
    lemma_suit_cards_all(b4, u);
    assert(suit_cards(sort_spec(h), u) =~= suit_block(h, u));
}

/// Counts the cards of `cards` whose suit is `suit`.
pub fn count_suit(cards: &[Card], suit: usize) -> (n: usize)
    ensures
        n as int == suit_cards(cards@, suit as int).len(),
        n <= cards@.len(),
{
    let mut n: usize = 0;
    let mut k: usize = 0;
    proof {
        reveal(Seq::filter);
        assert(cards@.take(0) =~= Seq::<Card>::empty());
        assert(suit_cards(cards@.take(0), suit as int) =~= Seq::<Card>::empty());
    }
    while k < cards.len()
        invariant
            k <= cards@.len(),
            n <= k,
            n as int == suit_cards(cards@.take(k as int), suit as int).len(),
        decreases cards@.len() - k,
    {
        proof {
            broadcast use vstd::prelude::Seq::lemma_filter_push;

            assert(cards@.take(k as int + 1) =~= cards@.take(k as int).push(cards@[k as int]));
        }
        if cards[k].suit == suit {
            n += 1;
        }
        k += 1;
    }
    proof {
        assert(cards@.take(cards@.len() as int) =~= cards@);
    }
    n
}

/// Arranges a hand in display order: suit ascending, rank descending.
/// The result is exactly `sort_spec` of the input; when every input card is
/// valid it is a permutation of the input.
pub fn sort_hand(cards: &[Card]) -> (r: Vec<Card>)
    ensures
        r@ == sort_spec(cards@),
        forall|i: int| 0 <= i < r@.len() ==> valid_card(#[trigger] r@[i]),
        forall|i: int, j: int|
            0 <= i <= j < r@.len() ==> display_le(#[trigger] r@[i], #[trigger] r@[j]),
        (forall|i: int| 0 <= i < cards@.len() ==> valid_card(#[trigger] cards@[i])) ==> r@.to_multiset()
            == cards@.to_multiset(),
{
    let ghost s = cards@;
    let mut sorted: Vec<Card> = Vec::new();
    let mut suit: usize = 1;
    proof {
        assert(sorted@ =~= suits_up_to(s, 0));
    }
    while suit <= 4
        invariant
            1 <= suit <= 5,
            s == cards@,
            sorted@ == suits_up_to(s, suit as int - 1),
        decreases 5 - suit,
    {
        let mut rank: usize = 14;
        proof {
            assert(ranks_down_to(s, suit as int, 15) =~= Seq::<Card>::empty());
            assert(sorted@ =~= suits_up_to(s, suit as int - 1) + ranks_down_to(
                s,
                suit as int,
                15,
            ));
        }
        while rank >= 2
            invariant
                1 <= suit <= 4,
                1 <= rank <= 14,
                s == cards@,
                sorted@ == suits_up_to(s, suit as int - 1) + ranks_down_to(
                    s,
                    suit as int,
                    rank as int + 1,
                ),
            decreases rank,
        {
            let ghost base = sorted@;
            let mut i: usize = 0;
            proof {
                reveal(Seq::filter);
                assert(s.take(0) =~= Seq::<Card>::empty());
                assert(bucket(s.take(0), suit as int, rank as int) =~= Seq::<Card>::empty());
                assert(sorted@ =~= base + bucket(s.take(0), suit as int, rank as int));
            }
            while i < cards.len()
                invariant
                    0 <= i <= cards.len(),
                    s == cards@,
                    base == suits_up_to(s, suit as int - 1) + ranks_down_to(
                        s,
                        suit as int,
                        rank as int + 1,
                    ),
                    sorted@ == base + bucket(s.take(i as int), suit as int, rank as int),
                decreases cards.len() - i,
            {
                proof {
                    broadcast use vstd::prelude::Seq::lemma_filter_push;

                    assert(s.take(i as int + 1) =~= s.take(i as int).push(s[i as int]));
                }
                if cards[i].suit == suit && cards[i].rank == rank {
                    sorted.push(cards[i]);
                }
                i += 1;
            }
            proof {
                assert(s.take(s.len() as int) =~= s);
                assert(sorted@ =~= suits_up_to(s, suit as int - 1) + ranks_down_to(
                    s,
                    suit as int,
                    rank as int,
                ));
            }
            rank -= 1;
        }
        suit += 1;
    }
    proof {
        lemma_sort_spec_sorted(s);
        if forall|i: int| 0 <= i < s.len() ==> valid_card(#[trigger] s[i]) {
            lemma_sort_spec_multiset(s);
        }
    }
    sorted
}

} // verus!
